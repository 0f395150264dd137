use porcelain::registry::{repo_id, Registry};

#[test]
fn id_e_estavel_e_distingue_caminhos() {
    let a = "/Users/joaquim/Git/porcelain";
    let b = "/Users/joaquim/Git/outro";

    assert_eq!(repo_id(a), repo_id(a));
    assert_ne!(repo_id(a), repo_id(b));
    assert_eq!(repo_id(a).len(), 32);
}

#[test]
fn registry_devolve_o_caminho_do_id_registrado() {
    let mut registry = Registry::default();
    let path = "/Users/joaquim/Git/porcelain";

    let id = registry.register(path);
    assert_eq!(registry.path_of(&id).as_deref(), Some(path));
    assert_eq!(registry.path_of("nao-existe"), None);
    assert_eq!(registry.list().len(), 1);
}

#[test]
fn the_id_is_the_sha256_prefix_of_the_path() {
    // SHA-256 of the empty input starts e3b0c44298fc1c149afbf4c8996fb924.
    assert_eq!(repo_id(""), "e3b0c44298fc1c149afbf4c8996fb924");
}

#[test]
fn reopening_keeps_one_entry_and_the_list_is_in_path_order() {
    let mut registry = Registry::new();
    registry.register("/r/zeta");
    registry.register("/r/a-b");
    registry.register("/r/a/b");
    registry.register("/r/zeta");
    let list = registry.list();
    let paths: Vec<&str> = list.iter().map(|(_, p)| p.as_str()).collect();
    // Component order: `/r/a/b` (under `a`) comes before `/r/a-b`.
    assert_eq!(paths, ["/r/a/b", "/r/a-b", "/r/zeta"]);
    for (id, path) in &list {
        assert_eq!(id, &repo_id(path));
    }
}

#[test]
fn paths_are_ordered_by_their_components() {
    let mut registry = Registry::new();
    registry.register("/a/./z");
    registry.register("/a/b");
    registry.register("/a//c/");
    registry.register("a/..");
    let list = registry.list();
    let paths: Vec<&str> = list.iter().map(|(_, p)| p.as_str()).collect();
    // `/a/./z` is `/a/z` to `Path`; a relative path comes after every absolute one.
    assert_eq!(paths, ["/a/b", "/a//c/", "/a/./z", "a/.."]);
}
