use porcelain::jobs::{new_id, Cleanup, JobBook, JobState, JobsError, LOG_TAIL, MAX_RUNNING};

type Book = JobBook<String, u32>;

#[test]
fn lifecycle_keeps_the_state_on_the_server() {
    let mut book = Book::new();
    book.create("teste", "j1".to_owned(), 1_000).unwrap();
    assert_eq!(book.snapshot("j1").unwrap().state, JobState::Running);

    book.log("j1", "primeira linha".to_owned());
    book.progress("j1", "contando".to_owned());
    assert_eq!(book.finish("j1", JobState::Done, None, None, Some(7), 2_000), Some(vec![]));

    let snap = book.snapshot("j1").unwrap();
    assert_eq!(snap.state, JobState::Done);
    assert_eq!(snap.log, ["primeira linha"]);
    assert_eq!(snap.progress.as_deref(), Some("contando"));
    assert_eq!(snap.result, Some(7));
    assert_eq!(snap.finished_at, Some(2_000));
    assert_eq!(book.snapshot("outro").map(|s| s.state), None);
}

#[test]
fn cancelling_only_asks_and_cleanup_runs_at_the_end() {
    let mut book = Book::new();
    book.create("clone", "j1".to_owned(), 1).unwrap();
    book.add_cleanup("j1", Cleanup::RemoveCreatedDir("/tmp/x".to_owned()));

    assert_eq!(book.cancel("j1"), Ok(true));
    assert_eq!(book.snapshot("j1").unwrap().state, JobState::Running);
    assert_eq!(book.cancel("nao-existe"), Err(JobsError::Unknown));

    let undo = book.finish("j1", JobState::Cancelled, None, None, None, 5).unwrap();
    assert_eq!(undo, vec![Cleanup::RemoveCreatedDir("/tmp/x".to_owned())]);
    assert_eq!(book.cancel("j1"), Ok(false));
}

#[test]
fn success_never_undoes() {
    let mut book = Book::new();
    book.create("clone", "j1".to_owned(), 1).unwrap();
    book.add_cleanup("j1", Cleanup::RemoveCreatedDir("/tmp/x".to_owned()));
    assert_eq!(book.finish("j1", JobState::Done, None, None, None, 2), Some(vec![]));
    assert_eq!(book.finish("zz", JobState::Error, None, None, None, 2), None);
}

#[test]
fn teto_de_jobs_concorrentes() {
    let mut book = Book::new();
    for i in 0..MAX_RUNNING {
        book.create("teste", format!("j{i}"), i as i64).unwrap();
    }
    assert_eq!(book.create("teste", "extra".to_owned(), 9), Err(JobsError::TooMany));
    assert_eq!(book.running(), MAX_RUNNING);

    book.finish("j0", JobState::Done, None, None, None, 10);
    assert!(book.create("teste", "extra".to_owned(), 11).is_ok());
}

#[test]
fn the_log_keeps_the_last_lines_and_prompts_come_and_go() {
    let mut book = Book::new();
    book.create("clone", "j1".to_owned(), 1).unwrap();
    for i in 0..(LOG_TAIL + 5) {
        book.log("j1", format!("linha {i}"));
    }
    book.ask("j1", "p1".to_owned(), "Senha da chave:".to_owned());
    let snap = book.snapshot("j1").unwrap();
    assert_eq!(snap.log.len(), LOG_TAIL);
    assert_eq!(snap.log[0], "linha 6");
    assert_eq!(snap.log[LOG_TAIL - 1], "senha pedida: Senha da chave:");
    assert_eq!(snap.pending_prompt.as_ref().unwrap().prompt_id, "p1");

    book.close_prompt("j1", "outro");
    assert!(book.snapshot("j1").unwrap().pending_prompt.is_some());
    book.close_prompt("j1", "p1");
    assert!(book.snapshot("j1").unwrap().pending_prompt.is_none());

    book.ask("j1", "p2".to_owned(), "Senha:".to_owned());
    book.finish("j1", JobState::Error, Some("falhou".to_owned()), None, None, 9);
    let snap = book.snapshot("j1").unwrap();
    assert!(snap.pending_prompt.is_none());
    assert_eq!(snap.message.as_deref(), Some("falhou"));
}

#[test]
fn the_list_is_most_recent_first() {
    let mut book = Book::new();
    book.create("a", "j1".to_owned(), 10).unwrap();
    book.create("b", "j2".to_owned(), 30).unwrap();
    book.create("c", "j3".to_owned(), 20).unwrap();
    let ids: Vec<&str> = book.list().iter().map(|s| s.job_id.as_str()).collect();
    assert_eq!(ids, ["j2", "j3", "j1"]);
}

#[test]
fn ids_are_sixteen_hex_digits() {
    let id = new_id().unwrap();
    assert_eq!(id.len(), 16);
    assert!(id.chars().all(|c| c.is_ascii_hexdigit()));
}
