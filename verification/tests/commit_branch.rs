use porcelain::branch::{self, BranchError, CreateOptions};
use porcelain::commit::{
    self, commit_args, commit_input, read_oid, refusal, template_path, validate_oid, CommitError,
    CommitOptions,
};

#[test]
fn commit_line_carries_the_flags_and_keeps_the_message_off_argv() {
    let options = CommitOptions {
        message: "assunto\n\ncorpo".to_owned(),
        amend: true,
        signoff: true,
        gpg_sign: Some(false),
        fixup: None,
    };
    assert_eq!(
        commit_args(&options).unwrap(),
        ["commit", "--cleanup=strip", "-F", "-", "--amend", "--signoff", "--no-gpg-sign"]
    );
    assert_eq!(commit_input(&options).as_deref(), Some("assunto\n\ncorpo"));
}

#[test]
fn a_fixup_has_git_write_the_message() {
    let options = CommitOptions {
        fixup: Some("0b61c6f".to_owned()),
        gpg_sign: Some(true),
        ..CommitOptions::default()
    };
    assert_eq!(commit_args(&options).unwrap(), ["commit", "--fixup=0b61c6f", "--gpg-sign"]);
    assert_eq!(commit_input(&options), None);
    let bad = CommitOptions {
        fixup: Some("HEAD@{1}".to_owned()),
        ..CommitOptions::default()
    };
    assert_eq!(commit_args(&bad).unwrap_err(), CommitError::InvalidFixupTarget);
}

#[test]
fn an_empty_message_never_reaches_git() {
    let options = CommitOptions {
        message: "   \n\n".to_owned(),
        ..CommitOptions::default()
    };
    assert_eq!(commit_args(&options).unwrap_err(), CommitError::EmptyMessage);
}

#[test]
fn oids_are_seven_to_forty_hex_digits() {
    assert!(validate_oid("abcdef0").is_ok());
    assert!(validate_oid(&"a".repeat(40)).is_ok());
    assert!(validate_oid("abcdef").is_err());
    assert!(validate_oid(&"a".repeat(41)).is_err());
    assert!(validate_oid("abcdefg").is_err());
}

#[test]
fn commit_failures_are_read_specific_first() {
    assert_eq!(
        commit::classify("error: gpg failed to sign the data\nfatal: failed to write commit object", ""),
        CommitError::SigningFailed
    );
    assert_eq!(
        commit::classify("fatal: You have nothing to amend.", ""),
        CommitError::NothingToAmend
    );
    assert_eq!(
        commit::classify("*** Please tell me who you are.", ""),
        CommitError::IdentityMissing
    );
    assert_eq!(
        commit::classify("", "On branch main\nnothing to commit, working tree clean"),
        CommitError::NothingToCommit
    );
    assert_eq!(
        commit::classify("\n  hook: linha um  \n\nlinha dois\nlinha tres\nlinha quatro\n", ""),
        CommitError::Refused("hook: linha um · linha dois · linha tres".to_owned())
    );
    assert_eq!(
        commit::classify("  \n", ""),
        CommitError::Refused("o git não disse por quê".to_owned())
    );
}

#[test]
fn refusal_keeps_at_most_three_lines() {
    assert_eq!(refusal("a\r\nb"), "a · b");
    assert_eq!(refusal(""), "o git não disse por quê");
}

#[test]
fn oid_and_template_are_read_from_stdout() {
    assert_eq!(read_oid(b"0b61c6f\n"), "0b61c6f");
    assert_eq!(template_path(b"  \n", Some("/home/u".to_owned())), None);
    assert_eq!(
        template_path(b"~/.gitmessage\n", Some("/home/u".to_owned())).as_deref(),
        Some("/home/u/.gitmessage")
    );
    assert_eq!(template_path(b"~/.gitmessage\n", None), None);
    assert_eq!(
        template_path(b"/etc/tpl\n", None).as_deref(),
        Some("/etc/tpl")
    );
}

fn create(name: &str) -> CreateOptions {
    CreateOptions {
        name: name.to_owned(),
        ..CreateOptions::default()
    }
}

#[test]
fn branch_line_puts_tracking_before_create() {
    let options = CreateOptions {
        start: Some("origin/main".to_owned()),
        checkout: true,
        track: Some(true),
        ..create("nova")
    };
    assert_eq!(
        branch::create_args(&options).unwrap(),
        ["switch", "--track", "--create", "nova", "origin/main"]
    );
    let plain = CreateOptions {
        track: Some(false),
        ..create("nova")
    };
    assert_eq!(branch::create_args(&plain).unwrap(), ["branch", "--no-track", "nova"]);
}

#[test]
fn branch_start_is_an_oid_or_a_ref_name() {
    assert!(branch::validate_start("0b61c6f00").is_ok());
    assert!(branch::validate_start("origin/main").is_ok());
    assert_eq!(
        branch::validate_start("main@{1}").unwrap_err(),
        BranchError::InvalidStart("main@{1}".to_owned())
    );
    assert!(branch::validate_start("-x").is_err());
    assert_eq!(
        branch::create_args(&create("a b")).unwrap_err(),
        BranchError::InvalidName("a b".to_owned())
    );
}

#[test]
fn branch_failures_are_read_specific_first() {
    let options = create("nova");
    assert_eq!(
        branch::classify("fatal: a branch named 'nova' already exists", &options),
        BranchError::AlreadyExists("nova".to_owned())
    );
    assert_eq!(
        branch::classify("fatal: not a valid object name: 'x'", &options),
        BranchError::UnknownStart("HEAD".to_owned())
    );
    assert_eq!(
        branch::classify("error: Your local changes to the following files would be overwritten by checkout:", &options),
        BranchError::WouldOverwrite
    );
    assert_eq!(
        branch::classify("hook disse não", &options),
        BranchError::Refused("hook disse não".to_owned())
    );
    assert_eq!(branch::tip_args("nova"), ["rev-parse", "--verify", "refs/heads/nova"]);
}

#[test]
fn falha_de_assinatura_tem_frase_propria_e_nao_vira_recusa_generica() {
    let stderr = "error: gpg failed to sign the data\n\
                  fatal: failed to write commit object\n";

    assert!(
        matches!(commit::classify(stderr, ""), CommitError::SigningFailed),
        "veio {:?}",
        commit::classify(stderr, "")
    );
}
