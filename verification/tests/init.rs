use porcelain::init::{
    init_target, plan_init, validate_branch, validate_branch_name, validate_name, InitError,
    InitOptions,
};

#[test]
fn nome_e_componente_de_caminho() {
    assert!(validate_name("projeto").is_ok());
    assert!(validate_name("../fuga").is_err());
    assert!(validate_name("/etc").is_err());
    assert!(validate_name("").is_err());
    assert!(validate_name("..").is_err());
}

#[test]
fn branch_recusa_o_que_o_git_recusaria() {
    assert!(validate_branch("main").is_ok());
    assert!(validate_branch("feat/log-canvas").is_ok());
    assert!(validate_branch("").is_err());
    assert!(validate_branch("-x").is_err());
    assert!(validate_branch("com espaco").is_err());
    assert!(validate_branch("a..b").is_err());
    assert!(validate_branch("x.lock").is_err());
}

#[test]
fn other_refused_branch_names() {
    for bad in [".x", "x/", "a~1", "a^", "a:b", "a?", "a*", "a[", "a\\b", "a\u{7}b"] {
        assert_eq!(
            validate_branch_name(bad),
            Err(InitError::InvalidBranch(bad.to_owned())),
            "{bad:?}"
        );
    }
}

#[test]
fn the_plan_names_the_target_and_closes_the_options() {
    let options = InitOptions {
        parent: "/srv/root".to_owned(),
        name: Some("novo".to_owned()),
        branch: Some("main".to_owned()),
    };
    assert_eq!(init_target(&options).unwrap(), "/srv/root/novo");
    let (target, args) = plan_init(&options, false).unwrap();
    assert_eq!(target, "/srv/root/novo");
    assert_eq!(args, ["init", "--initial-branch", "main", "--", "/srv/root/novo"]);
    assert_eq!(
        plan_init(&options, true).unwrap_err(),
        InitError::AlreadyARepository("/srv/root/novo".to_owned())
    );
    let bare = InitOptions {
        parent: "/srv/root".to_owned(),
        name: None,
        branch: Some("x y".to_owned()),
    };
    assert_eq!(
        plan_init(&bare, false).unwrap_err(),
        InitError::InvalidBranch("x y".to_owned())
    );
    let escape = InitOptions {
        parent: "/srv/root".to_owned(),
        name: Some("../fora".to_owned()),
        branch: None,
    };
    assert_eq!(
        plan_init(&escape, true).unwrap_err(),
        InitError::Create("../fora".to_owned())
    );
}
