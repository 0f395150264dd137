use porcelain::fs::{
    confine, parent_of, request_path, scan_result, show_entry, sort_entries, Canonical, Entry,
    Found, FsError,
};

fn root() -> String {
    "/home/u/porcelain".to_owned()
}

/// A small file system: a project with a `crates` folder, a `Cargo.toml`, and `/etc` outside,
/// plus a link inside the project that points out of it.
fn canonicalize(path: &str) -> Canonical {
    let found = |path: &str, is_dir: bool| Canonical::Found { path: path.to_owned(), is_dir };
    match path {
        "/home/u/porcelain" => found("/home/u/porcelain", true),
        "/home/u/porcelain/crates" => found("/home/u/porcelain/crates", true),
        "/home/u/porcelain/Cargo.toml" => found("/home/u/porcelain/Cargo.toml", false),
        "/home/u/porcelain/fora" => found("/etc", true),
        "/etc" => found("/etc", true),
        "/home/u/porcelain/trancada" => Canonical::Denied,
        _ => Canonical::Missing,
    }
}

/// What the server does with a request: the library decides, the file system answers.
fn resolve(root: &str, requested: Option<&str>) -> Result<String, FsError> {
    match request_path(root, requested)? {
        None => Ok(root.to_owned()),
        Some(joined) => confine(root, canonicalize(&joined)),
    }
}

#[test]
fn sem_path_devolve_a_raiz() {
    let root = root();
    assert_eq!(resolve(&root, None).unwrap(), root);
    assert_eq!(resolve(&root, Some("  ")).unwrap(), root);
}

#[test]
fn relativo_resolve_a_partir_da_raiz() {
    let root = root();
    assert_eq!(resolve(&root, Some("crates")).unwrap(), format!("{root}/crates"));
}

#[test]
fn recusa_fuga_por_dot_dot() {
    let root = root();
    assert!(matches!(resolve(&root, Some("../../etc")), Err(FsError::Confined)));
    assert!(matches!(resolve(&root, Some("crates/../../etc")), Err(FsError::Confined)));
}

#[test]
fn recusa_absoluto_fora_da_raiz() {
    let root = root();
    assert!(matches!(resolve(&root, Some("/etc")), Err(FsError::Confined)));
}

#[test]
fn arquivo_nao_e_diretorio() {
    let root = root();
    assert!(matches!(resolve(&root, Some("Cargo.toml")), Err(FsError::NotADirectory)));
}

#[test]
fn missing_is_not_found_and_the_parent_stops_at_the_root() {
    let root = root();
    assert!(matches!(resolve(&root, Some("nao-existe")), Err(FsError::NotFound)));
    assert!(matches!(resolve(&root, Some("fora")), Err(FsError::Confined)));
    assert!(matches!(resolve(&root, Some("trancada")), Err(FsError::Confined)));
    assert_eq!(parent_of(&root, &root), None);
    assert_eq!(parent_of(&root, &format!("{root}/crates")).as_deref(), Some(root.as_str()));
    assert_eq!(parent_of("/", "/home").as_deref(), Some("/"));
    assert_eq!(FsError::Confined.message(), "caminho fora da área permitida");
}

#[test]
fn entries_hide_dotfiles_and_escapes() {
    let inside = Canonical::Found { path: "/r/a".to_owned(), is_dir: true };
    assert_eq!(show_entry("/r", "a", false, inside.clone()), Some(("/r/a".to_owned(), false)));
    assert_eq!(show_entry("/r", ".git", false, inside.clone()), None);
    assert_eq!(show_entry("/r", ".git", true, inside), Some(("/r/a".to_owned(), true)));
    let outside = Canonical::Found { path: "/etc".to_owned(), is_dir: true };
    assert_eq!(show_entry("/r", "link", false, outside), None);
    let file = Canonical::Found { path: "/r/f".to_owned(), is_dir: false };
    assert_eq!(show_entry("/r", "f", false, file), None);
    assert_eq!(show_entry("/r", "x", false, Canonical::Missing), None);
}

fn entry(name: &str) -> Entry {
    Entry { name: name.to_owned(), path: format!("/r/{name}"), is_repo: false, hidden: false }
}

#[test]
fn entries_sort_without_case_then_by_name() {
    let sorted = sort_entries(vec![entry("beta"), entry("Alpha"), entry("alpha"), entry("Zed")]);
    let names: Vec<&str> = sorted.iter().map(|e| e.name.as_str()).collect();
    assert_eq!(names, ["Alpha", "alpha", "beta", "Zed"]);
}

#[test]
fn the_scan_says_when_it_was_cut() {
    let found: Vec<Found> = (0..3)
        .map(|i| Found { name: format!("p{i}"), path: format!("/r/g/p{i}"), depth: 2 })
        .collect();
    let scan = scan_result("/r", 3, 2, found.clone());
    assert!(scan.truncated);
    assert_eq!(scan.repos.len(), 2);
    assert_eq!(scan.repos[1].relative, "g/p1");
    let all = scan_result("/r", 3, 5, found);
    assert!(!all.truncated);
    assert_eq!(all.repos.len(), 3);
}

/// The listing the server builds from the small file system above: every entry of the root,
/// through the same rule.
fn list_root(show_hidden: bool) -> Vec<Entry> {
    let names = ["crates", ".git", "Cargo.toml", "fora"];
    let mut entries = Vec::new();
    for name in names {
        let path = format!("/home/u/porcelain/{name}");
        let canonical = if name == ".git" {
            Canonical::Found { path: path.clone(), is_dir: true }
        } else {
            canonicalize(&path)
        };
        if let Some((path, hidden)) = show_entry(&root(), name, show_hidden, canonical) {
            entries.push(Entry { name: name.to_owned(), path, is_repo: false, hidden });
        }
    }
    sort_entries(entries)
}

#[test]
fn ocultos_so_aparecem_quando_pedidos() {
    let visiveis = list_root(false);
    assert!(visiveis.iter().all(|entry| !entry.hidden));
    assert!(visiveis.iter().any(|entry| entry.name == "crates"));

    let todos = list_root(true);
    assert!(todos.iter().any(|entry| entry.name == ".git"));
}
