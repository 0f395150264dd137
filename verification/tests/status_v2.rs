use porcelain::model::{RepoState, StatusKind};
use porcelain::status_v2::parse;

fn build(records: &[&str]) -> Vec<u8> {
    records
        .iter()
        .flat_map(|record| record.bytes().chain(std::iter::once(0)))
        .collect()
}

#[test]
fn cabecalho_completo_e_lido() {
    let stdout = build(&[
        "# branch.oid 9db77b8e291c73877e0052d085d5c2236967b062",
        "# branch.head main",
        "# branch.upstream origin/main",
        "# branch.ab +2 -1",
    ]);

    let status = parse(&stdout);

    assert_eq!(
        status.branch.oid.as_deref(),
        Some("9db77b8e291c73877e0052d085d5c2236967b062")
    );
    assert_eq!(status.branch.head.as_deref(), Some("main"));
    assert!(!status.branch.detached);
    assert_eq!(status.branch.upstream.as_deref(), Some("origin/main"));
    assert_eq!(status.branch.ahead, 2);
    assert_eq!(status.branch.behind, 1);
}

#[test]
fn repositorio_sem_commit_nao_tem_oid() {
    let status = parse(&build(&["# branch.oid (initial)", "# branch.head main"]));
    assert_eq!(status.branch.oid, None);
}

#[test]
fn head_destacado_nao_tem_nome_de_branch() {
    let status = parse(&build(&["# branch.oid aaaa", "# branch.head (detached)"]));
    assert!(status.branch.detached);
    assert_eq!(status.branch.head, None);
}

#[test]
fn entrada_ordinaria_separa_staged_e_unstaged() {
    let stdout = build(&[
        "# branch.oid aaaa",
        "# branch.head main",
        "1 M. N... 100644 100644 100644 0000000000000000000000000000000000000000 0000000000000000000000000000000000000000 so-staged.txt",
        "1 .M N... 100644 100644 100644 0000000000000000000000000000000000000000 0000000000000000000000000000000000000000 so-unstaged.txt",
        "1 MM N... 100644 100644 100644 0000000000000000000000000000000000000000 0000000000000000000000000000000000000000 os-dois.txt",
    ]);

    let status = parse(&stdout);

    assert_eq!(status.staged.len(), 2, "{:?}", status.staged);
    assert_eq!(status.unstaged.len(), 2, "{:?}", status.unstaged);
    assert!(status
        .staged
        .iter()
        .any(|e| e.path == "so-staged.txt" && e.kind == StatusKind::Modified));
    assert!(status
        .unstaged
        .iter()
        .any(|e| e.path == "so-unstaged.txt" && e.kind == StatusKind::Modified));
    assert!(status.staged.iter().any(|e| e.path == "os-dois.txt"));
    assert!(status.unstaged.iter().any(|e| e.path == "os-dois.txt"));
}

#[test]
fn caminho_com_espaco_nao_quebra_o_parser() {
    let stdout = build(&[
        "# branch.oid aaaa",
        "# branch.head main",
        "1 .M N... 100644 100644 100644 0000000000000000000000000000000000000000 0000000000000000000000000000000000000000 pasta com espaco/arquivo.txt",
    ]);

    let status = parse(&stdout);
    assert_eq!(status.unstaged[0].path, "pasta com espaco/arquivo.txt");
}

#[test]
fn arquivo_novo_vira_untracked() {
    let stdout = build(&["# branch.oid aaaa", "# branch.head main", "? novo.txt"]);
    let status = parse(&stdout);

    assert_eq!(status.untracked.len(), 1);
    assert_eq!(status.untracked[0].kind, StatusKind::Untracked);
    assert_eq!(status.untracked[0].path, "novo.txt");
}

#[test]
fn rename_traz_o_caminho_antigo_do_registro_seguinte() {
    let stdout = build(&[
        "# branch.oid aaaa",
        "# branch.head main",
        "2 R. N... 100644 100644 100644 0000000000000000000000000000000000000000 0000000000000000000000000000000000000000 R100 novo.txt",
        "velho.txt",
        "? sobrou.txt",
    ]);

    let status = parse(&stdout);

    assert_eq!(status.staged.len(), 1);
    assert_eq!(status.staged[0].path, "novo.txt");
    assert_eq!(status.staged[0].old_path.as_deref(), Some("velho.txt"));
    assert_eq!(status.staged[0].kind, StatusKind::Renamed);
    assert_eq!(status.untracked.len(), 1);
    assert_eq!(status.untracked[0].path, "sobrou.txt");
}

#[test]
fn conflito_vira_entrada_unmerged() {
    let stdout = build(&[
        "# branch.oid aaaa",
        "# branch.head main",
        "u UU N... 100644 100644 100644 100644 0000000000000000000000000000000000000000 1111111111111111111111111111111111111111 2222222222222222222222222222222222222222 conflito.txt",
    ]);

    let status = parse(&stdout);

    assert_eq!(status.unstaged.len(), 1);
    assert_eq!(status.unstaged[0].kind, StatusKind::Unmerged);
    assert_eq!(status.unstaged[0].path, "conflito.txt");
    assert!(status.staged.is_empty());
}

#[test]
fn worktree_limpa_nao_traz_entrada_nenhuma() {
    let stdout = build(&[
        "# branch.oid aaaa",
        "# branch.head main",
        "# branch.upstream origin/main",
        "# branch.ab +0 -0",
    ]);

    let status = parse(&stdout);

    assert!(status.staged.is_empty());
    assert!(status.unstaged.is_empty());
    assert!(status.untracked.is_empty());
}

#[test]
fn linha_de_formato_desconhecido_e_ignorada_sem_derrubar_o_resto() {
    let stdout = build(&[
        "# branch.oid aaaa",
        "# branch.head main",
        "! ignorado.txt",
        "? real.txt",
    ]);

    let status = parse(&stdout);

    assert_eq!(status.untracked.len(), 1);
    assert_eq!(status.untracked[0].path, "real.txt");
}

#[test]
fn rename_at_the_very_end_has_no_old_path() {
    let stdout = build(&[
        "2 R. N... 100644 100644 100644 0000000000000000000000000000000000000000 0000000000000000000000000000000000000000 R100 novo.txt",
    ]);
    let status = parse(&stdout);
    assert_eq!(status.staged.len(), 1);
    assert_eq!(status.staged[0].old_path, None);
    assert_eq!(status.state, RepoState::Clean);
}

#[test]
fn short_entries_and_bad_counts_are_skipped_or_zero() {
    let stdout = build(&[
        "# branch.ab +x -3",
        "1 M. N... 100644",
        "u UU N... 1 2 3",
        "? ",
    ]);
    let status = parse(&stdout);
    assert_eq!(status.branch.ahead, 0);
    assert_eq!(status.branch.behind, 3);
    assert!(status.staged.is_empty());
    assert!(status.unstaged.is_empty());
    assert_eq!(status.untracked.len(), 1);
    assert_eq!(status.untracked[0].path, "");
}

#[test]
fn copy_and_typechange_letters_are_read() {
    let stdout = build(&[
        "1 TD N... 100644 100644 100644 0000000000000000000000000000000000000000 0000000000000000000000000000000000000000 a",
        "1 AC N... 100644 100644 100644 0000000000000000000000000000000000000000 0000000000000000000000000000000000000000 b",
    ]);
    let status = parse(&stdout);
    let staged: Vec<_> = status.staged.iter().map(|e| e.kind).collect();
    let unstaged: Vec<_> = status.unstaged.iter().map(|e| e.kind).collect();
    assert_eq!(staged, [StatusKind::Typechange, StatusKind::Added]);
    assert_eq!(unstaged, [StatusKind::Deleted, StatusKind::Copied]);
}
