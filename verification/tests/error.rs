use porcelain::error::{diagnose, diagnose_lowered, FailureKind};

fn kind(stderr: &str) -> FailureKind {
    diagnose(stderr).kind
}

#[test]
fn host_que_nao_resolve() {
    assert_eq!(
        kind("fatal: unable to access 'https://host-que-nao-existe.invalid/r.git/': Could not resolve host: host-que-nao-existe.invalid"),
        FailureKind::UnknownHost
    );
}

#[test]
fn repositorio_inexistente() {
    assert_eq!(
        kind("remote: Repository not found.\nfatal: repository 'https://github.com/nao-existe/nada.git/' not found"),
        FailureKind::NotFound
    );
}

#[test]
fn chave_rejeitada_vence_o_generico_do_ssh() {
    let real = "git@github.com: Permission denied (publickey).\n\
                fatal: Could not read from remote repository.\n\n\
                Please make sure you have the correct access rights\n\
                and the repository exists.";

    assert_eq!(kind(real), FailureKind::AuthDenied);
}

#[test]
fn host_key_nao_confiavel() {
    let real = "Host key verification failed.\n\
                fatal: Could not read from remote repository.\n\n\
                Please make sure you have the correct access rights\n\
                and the repository exists.";

    assert_eq!(kind(real), FailureKind::HostKey);
}

#[test]
fn host_key_trocada_nao_ganha_conselho_de_confiar() {
    let diagnosis = diagnose(
        "@@@@@ WARNING: REMOTE HOST IDENTIFICATION HAS CHANGED! @@@@@\nHost key verification failed.",
    );

    assert_eq!(diagnosis.kind, FailureKind::HostKey);
    assert!(
        diagnosis
            .action
            .as_deref()
            .is_some_and(|action| action.contains("intermediário")),
        "trocar de chave é o que um ataque parece; a ação não pode ser 'confie assim mesmo'"
    );
}

#[test]
fn senha_recusada() {
    assert_eq!(
        kind("remote: HTTP Basic: Access denied. If a password was provided for Git authentication, the password was incorrect\nfatal: Authentication failed for 'https://gitlab.com/x/y.git/'"),
        FailureKind::AuthDenied
    );
}

#[test]
fn destino_nao_vazio_e_branch_inexistente() {
    assert_eq!(
        kind("fatal: destination path '/tmp/e3' already exists and is not an empty directory."),
        FailureKind::DestinationNotEmpty
    );
    assert_eq!(
        kind("fatal: Remote branch nao-existe not found in upstream origin"),
        FailureKind::BranchNotFound
    );
}

#[test]
fn rede_caida() {
    assert_eq!(
        kind("fatal: unable to access 'https://github.com/x/y.git/': Failed to connect to github.com port 443 after 75000 ms: Couldn't connect to server"),
        FailureKind::Network
    );
    assert_eq!(
        kind("error: RPC failed; curl 18 transfer closed with outstanding read data remaining\nfatal: early EOF"),
        FailureKind::Network
    );
}

#[test]
fn o_que_nao_reconhecemos_nao_ganha_conselho_inventado() {
    let diagnosis = diagnose("fatal: alguma coisa que nunca vimos antes");

    assert_eq!(diagnosis.kind, FailureKind::Unknown);
    assert_eq!(diagnosis.action, None);
    assert!(
        !diagnosis.message.contains("fatal"),
        "a frase é nossa, não do git"
    );
}

#[test]
fn stderr_vazio_nao_entra_em_panico() {
    assert_eq!(kind(""), FailureKind::Unknown);
}

#[test]
fn the_remaining_kinds_have_their_sentence() {
    assert_eq!(kind("fatal: could not read Username for 'https://x': terminal prompts disabled"), FailureKind::CredentialsNeeded);
    assert_eq!(kind("remote: You don't have permission to push"), FailureKind::Forbidden);
    assert_eq!(kind("git-lfs filter-process: git-lfs: command not found"), FailureKind::LfsMissing);
    let generic = diagnose("fatal: Could not read from remote repository.");
    assert_eq!(generic.kind, FailureKind::NotFound);
    assert_eq!(generic.message, "não consegui ler esse repositório");
}

#[test]
fn the_lowercased_reading_is_case_sensitive() {
    // The public entry lowercases; the reading underneath takes the text as it is.
    let upper: Vec<char> = "COULD NOT RESOLVE HOST: x".chars().collect();
    assert_eq!(diagnose_lowered(&upper).kind, FailureKind::Unknown);
    let lower: Vec<char> = "could not resolve host: x".chars().collect();
    let d = diagnose_lowered(&lower);
    assert_eq!(d.kind, FailureKind::UnknownHost);
    assert_eq!(d.message, "não encontrei esse servidor");
    assert_eq!(kind("COULD NOT RESOLVE HOST: x"), FailureKind::UnknownHost);
}

#[test]
fn a_diagnosis_ignores_the_case_of_the_message() {
    let shouting = "FATAL: Could Not Resolve Host: github.com";
    let lowered = shouting.to_lowercase();
    let a = diagnose(shouting);
    let b = diagnose(&lowered);
    assert_eq!(a.kind, b.kind);
    assert_eq!(a.message, b.message);
    assert_eq!(a.action, b.action);
    assert_eq!(a.kind, FailureKind::UnknownHost);
}
