use porcelain::clone::{
    clone_target, folder_from_url, prepare, CloneError, CloneOptions, StderrTail, TargetState,
};
use porcelain::progress::parse;

fn options(url: &str) -> CloneOptions {
    CloneOptions {
        url: url.to_owned(),
        parent: "/tmp".to_owned(),
        folder: None,
        branch: None,
        depth: None,
        recurse_submodules: false,
        remote: None,
    }
}

#[test]
fn nome_da_pasta_sai_da_url() {
    assert_eq!(
        folder_from_url("https://github.com/rust-lang/log.git").as_deref(),
        Some("log")
    );
    assert_eq!(
        folder_from_url("https://github.com/rust-lang/log/").as_deref(),
        Some("log")
    );
    assert_eq!(
        folder_from_url("git@github.com:tokio-rs/tokio.git").as_deref(),
        Some("tokio")
    );
}

#[test]
fn recusa_ext_e_url_com_controle() {
    assert!(matches!(
        prepare(&options("ext::sh -c 'rm -rf /'"), TargetState::Missing),
        Err(CloneError::ExtTransport)
    ));
    assert!(matches!(
        prepare(&options("https://x/y\nrm"), TargetState::Missing),
        Err(CloneError::InvalidUrl)
    ));
    assert!(matches!(
        prepare(&options("   "), TargetState::Missing),
        Err(CloneError::MissingUrl)
    ));
}

#[test]
fn a_url_nunca_vira_flag() {
    let prepared = prepare(
        &CloneOptions {
            folder: Some("destino".to_owned()),
            ..options("--upload-pack=maldade")
        },
        TargetState::Missing,
    )
    .unwrap();

    let args = prepared.args();
    let fim = &args[args.len() - 3..];
    assert_eq!(fim[0], "--");
    assert_eq!(fim[1], "--upload-pack=maldade");
    assert_eq!(fim[2], "/tmp/destino");
}

#[test]
fn opcoes_viram_flags() {
    let prepared = prepare(
        &CloneOptions {
            branch: Some("main".to_owned()),
            depth: Some(1),
            recurse_submodules: true,
            remote: Some("upstream".to_owned()),
            ..options("https://github.com/rust-lang/log.git")
        },
        TargetState::Missing,
    )
    .unwrap();

    let args = prepared.args().join(" ");
    assert!(args.contains("-c protocol.ext.allow=never"));
    assert!(args.contains("--progress"));
    assert!(args.contains("--branch main"));
    assert!(args.contains("--depth=1 --no-single-branch"));
    assert!(args.contains("--recurse-submodules"));
    assert!(args.contains("--origin upstream"));
    assert!(prepared.target().ends_with("log"));
}

#[test]
fn only_a_missing_folder_is_ours_to_delete() {
    let ours = prepare(&options("https://github.com/rust-lang/log.git"), TargetState::Missing).unwrap();
    assert!(ours.creates_target);
    assert_eq!(ours.target(), "/tmp/log");
    let theirs = prepare(&options("https://github.com/rust-lang/log.git"), TargetState::Empty).unwrap();
    assert!(!theirs.creates_target);
    assert_eq!(
        prepare(&options("https://github.com/rust-lang/log.git"), TargetState::Occupied).unwrap_err(),
        CloneError::NotEmpty("/tmp/log".to_owned())
    );
}

#[test]
fn folder_branch_and_remote_are_checked_in_order() {
    let bad_folder = CloneOptions {
        folder: Some("../fora".to_owned()),
        branch: Some("-x".to_owned()),
        ..options("https://h/r.git")
    };
    assert_eq!(
        prepare(&bad_folder, TargetState::Missing).unwrap_err(),
        CloneError::InvalidFolder("../fora".to_owned())
    );
    let bad_branch = CloneOptions {
        branch: Some("a..b".to_owned()),
        remote: Some("/x".to_owned()),
        ..options("https://h/r.git")
    };
    assert_eq!(
        prepare(&bad_branch, TargetState::Missing).unwrap_err(),
        CloneError::InvalidBranch("a..b".to_owned())
    );
    let bad_remote = CloneOptions {
        remote: Some("-x".to_owned()),
        ..options("https://h/r.git")
    };
    assert_eq!(
        prepare(&bad_remote, TargetState::Missing).unwrap_err(),
        CloneError::InvalidRemote("-x".to_owned())
    );
    assert_eq!(clone_target(&options("https://h/")).unwrap(), "/tmp/h");
    assert_eq!(
        clone_target(&options("https://h/.git")).unwrap_err(),
        CloneError::InvalidUrl
    );
    assert_eq!(
        clone_target(&CloneOptions {
            parent: "/srv/".to_owned(),
            folder: Some("  nome  ".to_owned()),
            ..options("https://h/r.git")
        })
        .unwrap(),
        "/srv/nome"
    );
}

#[test]
fn tail_guarda_so_o_que_nao_e_progresso() {
    let mut tail = StderrTail::default();

    tail.push(&parse("Receiving objects:  10% (1/10)"));
    tail.push(&parse("fatal: repository not found"));

    assert_eq!(tail.text(), "fatal: repository not found");
}

#[test]
fn tail_keeps_the_last_forty_lines() {
    let mut tail = StderrTail::default();
    for i in 0..45 {
        tail.push(&parse(&format!("linha {i}")));
    }
    let text = tail.text();
    let lines: Vec<&str> = text.lines().collect();
    assert_eq!(lines.len(), 40);
    assert_eq!(lines[0], "linha 5");
    assert_eq!(lines[39], "linha 44");
}
