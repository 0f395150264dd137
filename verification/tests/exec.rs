use porcelain::exec::{
    by_content_args, by_path_args, house_args, house_env, stream_end, Askpass, ContentMode, StreamEnd,
};

#[test]
fn every_git_gets_the_house_rules() {
    assert_eq!(house_args(Some("/tmp")), ["--no-optional-locks", "-C", "/tmp"]);
    assert_eq!(house_args(None), ["--no-optional-locks"]);
    let env = house_env();
    assert!(env.contains(&("GIT_TERMINAL_PROMPT".to_owned(), "0".to_owned())));
    assert!(env.contains(&("LC_ALL".to_owned(), "C".to_owned())));
}

#[test]
fn askpass_routes_both_helpers_to_the_socket() {
    let askpass = Askpass { helper: "/bin/porc".to_owned(), socket: "/tmp/s.sock".to_owned() };
    let env = askpass.env();
    assert_eq!(env.len(), 5);
    assert!(env.contains(&("GIT_ASKPASS".to_owned(), "/bin/porc".to_owned())));
    assert!(env.contains(&("SSH_ASKPASS".to_owned(), "/bin/porc".to_owned())));
    assert!(env.contains(&("SSH_ASKPASS_REQUIRE".to_owned(), "force".to_owned())));
    assert!(env.contains(&("PORC_ASKPASS_SOCKET".to_owned(), "/tmp/s.sock".to_owned())));
}

#[test]
fn filters_never_let_a_value_become_a_flag() {
    assert_eq!(
        by_path_args("-rf"),
        ["log", "-z", "--format=%H%x00%an%x00%ae%x00%at%x00%s", "--", "-rf"]
    );
    assert_eq!(
        by_content_args(&ContentMode::StringCount("--all".to_owned()))[3],
        "-S--all"
    );
    assert_eq!(ContentMode::Regex("fn \\w+".to_owned()).flag(), "-Gfn \\w+");
}

#[test]
fn a_stream_failing_after_a_cancel_is_the_cancel() {
    assert_eq!(stream_end(true, false), StreamEnd::Finished);
    assert_eq!(stream_end(true, true), StreamEnd::Finished);
    assert_eq!(stream_end(false, true), StreamEnd::Cancelled);
    assert_eq!(stream_end(false, false), StreamEnd::Failed);
}
