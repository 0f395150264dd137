use porcelain::askpass::{answer_fits, prompt_id, prompt_text, AskpassError, Prompts};
use porcelain::branch::BranchError;
use porcelain::clone::CloneError;
use porcelain::commit::CommitError;
use porcelain::fs::FsError;
use porcelain::init::InitError;
use porcelain::jobs::JobsError;
use porcelain::model::Head;
use porcelain::patch::PatchError;
use porcelain::read::GitError;
use porcelain::repos::{head_oid, log_limit, split_discard, CloneStartError, RepoError};

#[test]
fn an_answer_reaches_the_prompt_that_asked_once() {
    let mut prompts: Prompts<u32> = Prompts::new();
    prompts.register("job-1".to_owned(), 7);
    prompts.register("job-2".to_owned(), 8);
    assert_eq!(prompts.answer("job-1"), Ok(7));
    assert_eq!(prompts.answer("job-1"), Err(AskpassError::Unknown));
    prompts.forget("job-2");
    assert_eq!(prompts.answer("job-2"), Err(AskpassError::Unknown));
}

#[test]
fn registering_an_id_again_replaces_the_channel() {
    let mut prompts: Prompts<&str> = Prompts::new();
    prompts.register("p".to_owned(), "old");
    prompts.register("p".to_owned(), "new");
    assert_eq!(prompts.answer("p"), Ok("new"));
}

#[test]
fn prompts_are_trimmed_and_numbered_per_job() {
    assert_eq!(prompt_text(b"  Enter passphrase for key '/k': \n"), "Enter passphrase for key '/k':");
    assert_eq!(prompt_id("a1b2", 3), "a1b2-3");
    assert!(answer_fits(4096));
    assert!(!answer_fits(4097));
    assert_eq!(AskpassError::Unknown.status(), 404);
    assert_eq!(AskpassError::Socket("x".to_owned()).status(), 500);
}

#[test]
fn every_refusal_has_its_status() {
    assert_eq!(RepoError::Fs(FsError::Confined).status(), 403);
    assert_eq!(RepoError::Fs(FsError::NotFound).status(), 404);
    assert_eq!(RepoError::NotARepository("/x".to_owned()).status(), 400);
    assert_eq!(RepoError::Unknown.status(), 404);
    assert_eq!(RepoError::Git(GitError::InvalidCursor).status(), 400);
    assert_eq!(RepoError::Git(GitError::FileUnchanged).status(), 404);
    assert_eq!(RepoError::Git(GitError::NotUtf8).status(), 422);
    assert_eq!(RepoError::Git(GitError::Read("boom".to_owned())).status(), 500);
    assert_eq!(RepoError::Init(InitError::AlreadyARepository("/r".to_owned())).status(), 409);
    assert_eq!(RepoError::Init(InitError::NotEmpty("/r".to_owned())).status(), 400);
    assert_eq!(RepoError::Init(InitError::Exec("spawn".to_owned())).status(), 500);
    assert_eq!(RepoError::NoPaths.status(), 400);
    assert_eq!(RepoError::Patch(PatchError::EmptySelection).status(), 400);
    assert_eq!(RepoError::Commit(CommitError::EmptyMessage).status(), 400);
    assert_eq!(RepoError::Commit(CommitError::NothingToCommit).status(), 409);
    assert_eq!(RepoError::Branch(BranchError::UnknownStart("x".to_owned())).status(), 400);
    assert_eq!(RepoError::Branch(BranchError::AlreadyExists("x".to_owned())).status(), 409);
    assert_eq!(RepoError::Join.status(), 500);
    assert_eq!(JobsError::TooMany.status(), 429);
    assert_eq!(CloneStartError::Clone(CloneError::NotEmpty("/t".to_owned())).status(), 409);
    assert_eq!(CloneStartError::Clone(CloneError::MissingUrl).status(), 400);
    assert_eq!(CloneStartError::Jobs(JobsError::Unknown).status(), 404);
}

#[test]
fn log_pages_are_clamped_never_refused() {
    assert_eq!(log_limit(None), 500);
    assert_eq!(log_limit(Some(0)), 1);
    assert_eq!(log_limit(Some(10_000)), 2000);
    assert_eq!(log_limit(Some(42)), 42);
}

#[test]
fn a_discard_splits_into_removed_and_restored() {
    let requested = vec!["novo.txt".to_owned(), "a.rs".to_owned(), "b.rs".to_owned()];
    let untracked = vec!["outro.txt".to_owned(), "novo.txt".to_owned()];
    let (restored, removed) = split_discard(&requested, &untracked);
    assert_eq!(removed, ["novo.txt"]);
    assert_eq!(restored, ["a.rs", "b.rs"]);
}

#[test]
fn the_indexing_job_only_starts_from_a_commit() {
    let branch = Head::Branch { name: "main".to_owned(), commit: "abc".to_owned() };
    assert_eq!(head_oid(&branch).as_deref(), Some("abc"));
    assert_eq!(head_oid(&Head::Unborn { name: "main".to_owned() }), None);
}
