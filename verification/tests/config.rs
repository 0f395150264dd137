use porcelain::config::{default_root, expand_tilde, ConfigFile, Settings, DEFAULT_SCAN_DEPTH, DEFAULT_SCAN_LIMIT};

#[test]
fn raiz_inexistente_cai_para_a_home() {
    let home = default_root(Some("/home/u".to_owned()));
    // The file names a root the file system did not find: the default root stands.
    let settings = Settings::from_file(
        ConfigFile {
            root: Some("/nao/existe/em/lugar/nenhum".to_owned()),
            scan_depth: None,
            scan_limit: None,
        },
        None,
        home.clone(),
    );

    assert_eq!(settings.root, home);
}

#[test]
fn profundidade_zero_vira_um() {
    let settings = Settings::from_file(
        ConfigFile {
            root: None,
            scan_depth: Some(0),
            scan_limit: Some(0),
        },
        None,
        "/".to_owned(),
    );

    assert_eq!(settings.scan_depth, 1);
    assert_eq!(settings.scan_limit, 1);
}

#[test]
fn a_missing_file_gives_the_defaults() {
    let settings = Settings::load(None, None, "/home/u".to_owned());
    assert_eq!(settings.root, "/home/u");
    assert_eq!(settings.scan_depth, DEFAULT_SCAN_DEPTH);
    assert_eq!(settings.scan_limit, DEFAULT_SCAN_LIMIT);
    assert_eq!(default_root(None), "/");
}

#[test]
fn a_found_root_is_taken() {
    let settings = Settings::load(
        Some(ConfigFile { root: Some("~/Git".to_owned()), scan_depth: Some(5), scan_limit: None }),
        Some("/home/u/Git".to_owned()),
        "/home/u".to_owned(),
    );
    assert_eq!(settings.root, "/home/u/Git");
    assert_eq!(settings.scan_depth, 5);
    assert_eq!(settings.scan_limit, DEFAULT_SCAN_LIMIT);
}

#[test]
fn til_e_expandido_so_no_comeco() {
    let home = Some("/home/u".to_owned());
    assert_eq!(expand_tilde("~/Git", home.clone()), "/home/u/Git");
    assert_eq!(expand_tilde("~//Git", home.clone()), "/home/u/Git");
    assert_eq!(expand_tilde("/tmp/~/x", home.clone()), "/tmp/~/x");
    assert_eq!(expand_tilde("~/Git", None), "~/Git");
}

#[test]
fn arquivo_ausente_devolve_os_padroes() {
    let home = default_root(Some("/home/u".to_owned()));
    let settings = Settings::load(None, None, home.clone());

    assert_eq!(settings.root, home);
    assert_eq!(settings.scan_depth, DEFAULT_SCAN_DEPTH);
}
