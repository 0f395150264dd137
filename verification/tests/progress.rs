use porcelain::progress::{parse, Counted, ProgressEvent, Receiving, Splitter};

/// Real stderr of `git clone --progress`, with the `\r` and the padding git wrote.
const REAL: &str = "Cloning into 'progress-probe'...\n\
    remote: Enumerating objects: 3986, done.        \n\
    remote: Counting objects:   0% (1/752)        \r\
    remote: Counting objects: 100% (752/752), done.        \r\
    remote: Compressing objects:  10% (29/290)        \r\
    remote: Compressing objects: 100% (290/290), done.        \r\
    Receiving objects:   0% (1/3986)\r\
    remote: Total 3986 (delta 572), reused 492 (delta 462), pack-reused 3234 (from 4)        \n\
    Receiving objects: 100% (3986/3986), 1.11 MiB | 6.34 MiB/s, done.\n\
    Resolving deltas:   0% (0/2226)\r\
    Resolving deltas: 100% (2226/2226), done.\n";

#[test]
fn separa_por_cr_e_por_lf() {
    let mut splitter = Splitter::default();
    let updates = splitter.push(REAL.as_bytes());

    assert_eq!(updates.len(), 11, "{updates:#?}");
    assert_eq!(updates[0], "Cloning into 'progress-probe'...");
    assert!(updates[2].starts_with("remote: Counting objects:   0%"));
}

#[test]
fn atualizacao_partida_entre_chunks_espera_o_resto() {
    let mut splitter = Splitter::default();

    assert!(splitter.push(b"Receiving objects:  34% (16").is_empty());
    let updates = splitter.push(b"766/49311)\rResolving");
    assert_eq!(updates, ["Receiving objects:  34% (16766/49311)"]);

    assert_eq!(splitter.flush().as_deref(), Some("Resolving"));
    assert_eq!(splitter.flush(), None);
}

#[test]
fn le_o_trecho_real_inteiro() {
    let mut splitter = Splitter::default();
    let events: Vec<_> = splitter
        .push(REAL.as_bytes())
        .iter()
        .map(|update| parse(update))
        .collect();

    assert_eq!(
        events[1],
        ProgressEvent::Enumerating {
            objects: 3986,
            done: true
        }
    );
    assert_eq!(
        events[2],
        ProgressEvent::Counting(Counted {
            percent: 0,
            current: 1,
            total: 752,
            done: false
        })
    );
    assert_eq!(
        events[3],
        ProgressEvent::Counting(Counted {
            percent: 100,
            current: 752,
            total: 752,
            done: true
        })
    );
    assert!(matches!(events[4], ProgressEvent::Compressing(_)));
    assert!(matches!(events[9], ProgressEvent::ResolvingDeltas(_)));

    assert!(matches!(events[0], ProgressEvent::Other(_)));
    assert!(matches!(events[7], ProgressEvent::Other(_)));
}

#[test]
fn receiving_sem_throughput_ainda_e_progresso() {
    let event = parse("Receiving objects:   0% (1/49311)");

    assert_eq!(
        event,
        ProgressEvent::Receiving(Receiving {
            percent: 0,
            objects: 1,
            total: 49311,
            bytes: None,
            bytes_per_s: None,
            done: false,
        })
    );
}

#[test]
fn checkout_tambem_e_fase() {
    assert_eq!(
        parse("Updating files:  45% (123/271)"),
        ProgressEvent::CheckingOut(Counted {
            percent: 45,
            current: 123,
            total: 271,
            done: false
        })
    );
}

#[test]
fn linha_desconhecida_vira_log_e_nao_derruba() {
    assert_eq!(
        parse("warning: redirecting to https://example.com/repo.git/"),
        ProgressEvent::Other("warning: redirecting to https://example.com/repo.git/".to_owned())
    );
    assert!(matches!(
        parse("Counting objects: x% (a/b)"),
        ProgressEvent::Other(_)
    ));
}

#[test]
fn receiving_keeps_the_size_texts_git_wrote() {
    let event = parse("Receiving objects:  34% (16766/49311), 7.44 MiB | 14.69 MiB/s");

    assert_eq!(
        event,
        ProgressEvent::Receiving(Receiving {
            percent: 34,
            objects: 16766,
            total: 49311,
            bytes: Some("7.44 MiB".to_owned()),
            bytes_per_s: Some("14.69 MiB".to_owned()),
            done: false,
        })
    );
    assert_eq!(event.phase(), "recebendo objetos");
}

#[test]
fn enumerating_counts_without_a_total() {
    let event = parse("remote: Enumerating objects: 3986, done.");
    assert_eq!(
        event,
        ProgressEvent::Enumerating {
            objects: 3986,
            done: true
        }
    );
    assert_eq!(event.phase(), "enumerando objetos");
    assert_eq!(parse("Cloning into 'x'...").phase(), "");
}

#[test]
fn percent_over_a_byte_is_a_log_line() {
    assert!(matches!(
        parse("Counting objects: 300% (1/2)"),
        ProgressEvent::Other(_)
    ));
}

#[test]
fn chunk_boundaries_do_not_change_the_updates() {
    let whole = {
        let mut s = Splitter::default();
        let mut all = s.push(REAL.as_bytes());
        all.extend(s.flush());
        all
    };
    for cut in [1, 7, 30, 100, 250] {
        let mut s = Splitter::default();
        let bytes = REAL.as_bytes();
        let mut all = s.push(&bytes[..cut]);
        all.extend(s.push(&bytes[cut..]));
        all.extend(s.flush());
        assert_eq!(all, whole, "cut at {cut}");
    }
}

#[test]
fn non_utf8_bytes_do_not_stop_the_clone() {
    let mut s = Splitter::default();
    let updates = s.push(b"caminho \xff ruim\n");
    assert_eq!(updates, ["caminho \u{fffd} ruim"]);
}

#[test]
fn byte_chunks_split_between_chars_give_the_same_updates() {
    let a = "Recebendo à\r".as_bytes();
    let b = "ções: 10%\rfim\n".as_bytes();
    let mut two = Splitter::default();
    let mut got = two.push(a);
    got.extend(two.push(b));
    let mut one = Splitter::default();
    let whole = one.push(&[a, b].concat());
    assert_eq!(got, whole);
    assert_eq!(whole, ["Recebendo à", "ções: 10%", "fim"]);
    assert_eq!(two.flush(), one.flush());
}

#[test]
fn the_detail_line_has_the_raw_numbers() {
    let event = parse("remote: Enumerating objects: 3986, done.");
    assert_eq!(event.detail(None, None).as_deref(), Some("3986 objetos"));
    let event = parse("Updating files:  45% (123/271)");
    assert_eq!(event.detail(None, None).as_deref(), Some("123/271"));
    let event = parse("Receiving objects:  34% (16766/49311), 7.44 MiB | 14.69 MiB/s");
    assert_eq!(
        event.detail(Some("7.44 MiB"), Some("14.69 MiB")).as_deref(),
        Some("16766/49311 · 7.44 MiB · 14.69 MiB/s")
    );
    assert_eq!(event.detail(None, None).as_deref(), Some("16766/49311"));
    assert_eq!(parse("Cloning into 'x'...").detail(None, None), None);
}
