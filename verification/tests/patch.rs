use porcelain::patch::{parse, HunkSelection, PatchError};

/// Three hunks in one file, in the format git writes.
const TRES_HUNKS: &str = "\
diff --git a/a.txt b/a.txt
index 1111111..2222222 100644
--- a/a.txt
+++ b/a.txt
@@ -1,3 +1,4 @@
 um
+novo-1
 dois
 tres
@@ -10,3 +11,4 @@ fn meio()
 dez
+novo-2
 onze
 doze
@@ -20,3 +22,4 @@
 vinte
+novo-3
 vinte-e-um
 vinte-e-dois
";

#[test]
fn separa_cabecalho_dos_hunks() {
    let patch = parse(TRES_HUNKS).unwrap();

    assert_eq!(patch.header.len(), 4);
    assert_eq!(patch.header[0], "diff --git a/a.txt b/a.txt");
    assert_eq!(patch.hunks.len(), 3);

    assert_eq!(patch.hunks[1].old_start, 10);
    assert_eq!(patch.hunks[1].old_count, 3);
    assert_eq!(patch.hunks[1].new_start, 11);
    assert_eq!(patch.hunks[1].new_count, 4);
    assert_eq!(patch.hunks[1].section, " fn meio()");
    assert_eq!(patch.hunks[1].lines, [" dez", "+novo-2", " onze", " doze"]);
}

#[test]
fn contagem_omitida_vale_um() {
    let patch =
        parse("diff --git a/x b/x\n--- a/x\n+++ b/x\n@@ -1 +1,2 @@\n linha\n+outra\n").unwrap();

    assert_eq!(patch.hunks[0].old_count, 1);
    assert_eq!(patch.hunks[0].new_count, 2);
}

#[test]
fn um_hunk_do_meio_sai_com_o_cabecalho_inteiro_e_so_ele() {
    let saida = parse(TRES_HUNKS).unwrap().select_hunks(&[1]).unwrap();

    assert!(saida.starts_with("diff --git a/a.txt b/a.txt\n"));
    assert!(saida.contains("--- a/a.txt\n+++ b/a.txt\n"));
    assert_eq!(saida.matches("@@ -").count(), 1);
    assert!(saida.contains("+novo-2"));
    assert!(!saida.contains("+novo-1"));
    assert!(!saida.contains("+novo-3"));
}

#[test]
fn o_lado_novo_e_recalculado_quando_hunks_ficam_de_fora() {
    let patch = parse(TRES_HUNKS).unwrap();

    assert!(patch
        .select_hunks(&[2])
        .unwrap()
        .contains("@@ -20,3 +20,4 @@"));

    let dois = patch.select_hunks(&[0, 2]).unwrap();
    assert!(dois.contains("@@ -1,3 +1,4 @@"), "{dois}");
    assert!(dois.contains("@@ -20,3 +21,4 @@"), "{dois}");
}

#[test]
fn selecionar_todos_reproduz_os_cabecalhos_originais() {
    let saida = parse(TRES_HUNKS).unwrap().select_hunks(&[0, 1, 2]).unwrap();

    assert!(saida.contains("@@ -1,3 +1,4 @@"));
    assert!(saida.contains("@@ -10,3 +11,4 @@ fn meio()"));
    assert!(saida.contains("@@ -20,3 +22,4 @@"));
}

#[test]
fn indice_fora_da_faixa_e_selecao_vazia_sao_recusados() {
    let patch = parse(TRES_HUNKS).unwrap();

    assert_eq!(patch.select_hunks(&[]), Err(PatchError::EmptySelection));
    assert_eq!(patch.select_hunks(&[3]), Err(PatchError::OutOfRange));
}

/// One hunk with two deletions and two additions mixed with context.
const MISTO: &str = "\
diff --git a/b.txt b/b.txt
index 1111111..2222222 100644
--- a/b.txt
+++ b/b.txt
@@ -1,4 +1,4 @@
 topo
-velha-1
+nova-1
 meio
-velha-2
+nova-2
";

fn corpo(patch: &str) -> Vec<&str> {
    patch
        .lines()
        .skip_while(|line| !line.starts_with("@@"))
        .collect()
}

#[test]
fn adicao_nao_escolhida_some_e_remocao_nao_escolhida_vira_contexto() {
    let patch = parse(MISTO).unwrap();

    let saida = patch
        .select(&[HunkSelection {
            hunk: 0,
            lines: Some(vec![0, 1]),
        }])
        .unwrap();

    assert_eq!(
        corpo(&saida),
        [
            "@@ -1,4 +1,4 @@",
            " topo",
            "-velha-1",
            "+nova-1",
            " meio",
            " velha-2",
        ]
    );
    assert!(!saida.contains("nova-2"), "{saida}");
}

#[test]
fn escolher_so_uma_remocao_encolhe_o_lado_novo() {
    let patch = parse(MISTO).unwrap();

    let saida = patch
        .select(&[HunkSelection {
            hunk: 0,
            lines: Some(vec![0]),
        }])
        .unwrap();

    assert_eq!(corpo(&saida)[0], "@@ -1,4 +1,3 @@");
    assert!(saida.contains("-velha-1"), "{saida}");
    assert!(saida.contains(" velha-2"), "{saida}");
}

#[test]
fn so_contexto_escolhido_nao_produz_patch() {
    let patch = parse(MISTO).unwrap();

    assert_eq!(
        patch.select(&[HunkSelection {
            hunk: 0,
            lines: Some(vec![])
        }]),
        Err(PatchError::EmptySelection)
    );
}

#[test]
fn linha_fora_da_faixa_e_recusada() {
    let patch = parse(MISTO).unwrap();

    assert_eq!(
        patch.select(&[HunkSelection {
            hunk: 0,
            lines: Some(vec![4])
        }]),
        Err(PatchError::OutOfRange)
    );
}

#[test]
fn o_marcador_de_fim_sem_quebra_acompanha_a_linha_dele() {
    let raw = "\
diff --git a/c.txt b/c.txt
--- a/c.txt
+++ b/c.txt
@@ -1,2 +1,2 @@
 topo
-fim velho
\\ No newline at end of file
+fim novo
\\ No newline at end of file
";
    let patch = parse(raw).unwrap();

    let ambas = patch
        .select(&[HunkSelection {
            hunk: 0,
            lines: Some(vec![0, 1]),
        }])
        .unwrap();
    assert_eq!(ambas.matches("No newline").count(), 2, "{ambas}");

    let so_remocao = patch
        .select(&[HunkSelection {
            hunk: 0,
            lines: Some(vec![0]),
        }])
        .unwrap();
    assert_eq!(so_remocao.matches("No newline").count(), 1, "{so_remocao}");
    assert!(!so_remocao.contains("fim novo"), "{so_remocao}");
}

#[test]
fn texto_que_nao_e_patch_nao_vira_patch() {
    assert_eq!(parse("qualquer coisa\n"), Err(PatchError::Malformed));
    assert_eq!(parse(""), Err(PatchError::Malformed));
}

#[test]
fn selecao_fora_de_ordem_sai_na_ordem_do_arquivo() {
    let patch = parse(TRES_HUNKS).unwrap();
    let saida = patch.select_hunks(&[2, 0]).unwrap();
    let primeiro = saida.find("+novo-1").unwrap();
    let terceiro = saida.find("+novo-3").unwrap();
    assert!(primeiro < terceiro, "{saida}");
    assert!(saida.contains("@@ -20,3 +21,4 @@"), "{saida}");
}

#[test]
fn hunk_inteiro_passa_sem_mudanca() {
    let patch = parse(MISTO).unwrap();
    let saida = patch.select_hunks(&[0]).unwrap();
    assert_eq!(
        corpo(&saida),
        ["@@ -1,4 +1,4 @@", " topo", "-velha-1", "+nova-1", " meio", "-velha-2", "+nova-2"]
    );
}

#[test]
fn mensagens_de_erro_em_portugues() {
    assert_eq!(PatchError::Malformed.message(), "não consegui interpretar o patch deste arquivo");
    assert_eq!(PatchError::EmptySelection.message(), "nenhum trecho selecionado");
}

#[test]
fn the_order_of_the_selection_does_not_change_the_patch() {
    let patch = parse(TRES_HUNKS).unwrap();
    let forward = patch.select_hunks(&[0, 1, 2]).unwrap();
    assert_eq!(patch.select_hunks(&[2, 0, 1]).unwrap(), forward);
    assert_eq!(patch.select_hunks(&[1, 2, 0]).unwrap(), forward);
    let pick = |hunk: usize, lines: Option<Vec<usize>>| HunkSelection { hunk, lines };
    let a = patch.select(&[pick(0, Some(vec![0])), pick(2, None)]).unwrap();
    let b = patch.select(&[pick(2, None), pick(0, Some(vec![0]))]).unwrap();
    assert_eq!(a, b);
}
