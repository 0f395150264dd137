use porcelain::discover::{Listed, Scanner};
use porcelain::fs::Found;

fn folder(name: &str, path: &str, is_repo: bool) -> Listed {
    Listed { name: name.to_owned(), path: path.to_owned(), is_dir: true, is_repo }
}

fn file(name: &str, path: &str) -> Listed {
    Listed { name: name.to_owned(), path: path.to_owned(), is_dir: false, is_repo: false }
}

/// A small disk: `/src` holds the project `porcelain` (with `crates` inside it), a hidden
/// `.cache` repository, a loose file, a plain folder `work` with two repositories below it,
/// and `Zeta`, a repository whose name sorts by case.
fn read_dir(dir: &str) -> Vec<Listed> {
    match dir {
        "/src" => vec![
            folder("porcelain", "/src/porcelain", true),
            folder(".cache", "/src/.cache", true),
            file("notes.txt", "/src/notes.txt"),
            folder("work", "/src/work", false),
            folder("Zeta", "/src/Zeta", true),
        ],
        "/src/porcelain" => vec![folder("crates", "/src/porcelain/crates", true)],
        "/src/work" => vec![
            folder("beta", "/src/work/beta", true),
            folder("alpha", "/src/work/alpha", true),
        ],
        _ => vec![],
    }
}

/// The walk as the server drives it: the library decides, the disk answers.
fn scan(root: &str, max_depth: usize, limit: usize) -> Vec<Found> {
    let mut scanner = Scanner::new(root.to_owned(), max_depth, limit);
    while let Some((dir, depth)) = scanner.next_dir() {
        let entries = read_dir(&dir);
        scanner.take(depth, &entries);
    }
    scanner.finish()
}

#[test]
fn varredura_acha_o_projeto_e_nao_desce_dentro_dele() {
    let found = scan("/src", 2, 100);
    assert!(found.iter().any(|repo| repo.path == "/src/porcelain"));
    assert!(!found.iter().any(|repo| repo.path.starts_with("/src/porcelain/crates")));
}

#[test]
fn profundidade_zero_nao_acha_nada_e_o_limite_corta() {
    assert!(scan("/src", 0, 100).is_empty());
    assert!(scan("/src", 3, 2).len() <= 2);
}

#[test]
fn finds_are_sorted_by_name_without_case_and_carry_their_depth() {
    let found = scan("/src", 2, 100);
    let names: Vec<(&str, usize)> = found.iter().map(|f| (f.name.as_str(), f.depth)).collect();
    assert_eq!(names, [("alpha", 2), ("beta", 2), ("porcelain", 1), ("Zeta", 1)]);
}

#[test]
fn hidden_folders_and_files_are_skipped() {
    let found = scan("/src", 2, 100);
    assert!(!found.iter().any(|f| f.name == ".cache" || f.name == "notes.txt"));
}

#[test]
fn depth_one_reads_only_the_root() {
    let found = scan("/src", 1, 100);
    let paths: Vec<&str> = found.iter().map(|f| f.path.as_str()).collect();
    assert_eq!(paths, ["/src/porcelain", "/src/Zeta"]);
}

#[test]
fn the_limit_stops_the_reading_in_order() {
    let found = scan("/src", 2, 1);
    assert_eq!(found.len(), 1);
    assert_eq!(found[0].path, "/src/porcelain");
}
