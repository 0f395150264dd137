use porcelain::model::{decode_cursor, LaneSlot, RepoState};
use porcelain::read::{
    complete_paths, display_name, free_lane, next_cursor, place_commit, repo_state,
    split_prefix, Operation, ParentLink, TreeName,
};

#[test]
fn nome_de_bare_perde_o_sufixo_git() {
    assert_eq!(display_name("/srv/porcelain.git"), "porcelain");
    assert_eq!(display_name("/srv/porcelain"), "porcelain");
}

fn parent(oid: &str) -> ParentLink {
    ParentLink {
        oid: oid.to_owned(),
        present: true,
    }
}

fn some(oid: &str) -> Option<String> {
    Some(oid.to_owned())
}

#[test]
fn lanes_converge_at_the_fork_and_are_born_at_the_merge() {
    // root <- a <- b <- merge, and a <- f1 <- merge, walked in topological order.
    let mut lanes = vec![some("merge")];

    let (lane, edges) = place_commit(&mut lanes, &"merge".to_owned(), &[parent("b"), parent("f1")]);
    assert_eq!((lane, edges), (0, vec![Some(0), Some(1)]));
    assert_eq!(lanes, vec![some("b"), some("f1")]);

    let (lane, edges) = place_commit(&mut lanes, &"f1".to_owned(), &[parent("a")]);
    assert_eq!((lane, edges), (1, vec![Some(1)]));

    let (lane, edges) = place_commit(&mut lanes, &"b".to_owned(), &[parent("a")]);
    assert_eq!((lane, edges), (0, vec![Some(0)]));
    assert_eq!(lanes, vec![some("a"), some("a")]);

    // Both lanes waited for `a`: it takes the leftmost, the other comes free.
    let (lane, edges) = place_commit(&mut lanes, &"a".to_owned(), &[parent("root")]);
    assert_eq!((lane, edges), (0, vec![Some(0)]));
    assert_eq!(lanes, vec![some("root"), None]);
    assert!(next_cursor(&lanes).is_some());

    let (lane, edges) = place_commit(&mut lanes, &"root".to_owned(), &[]);
    assert_eq!((lane, edges), (0, vec![]));
    assert_eq!(lanes, vec![None, None]);
    assert_eq!(next_cursor(&lanes), None);
}

#[test]
fn a_shallow_edge_ends_the_line() {
    let mut lanes = vec![None, some("c")];
    let missing = ParentLink {
        oid: "gone".to_owned(),
        present: false,
    };
    let (lane, edges) = place_commit(&mut lanes, &"c".to_owned(), &[missing, parent("p2")]);
    assert_eq!(lane, 1);
    // The second parent takes the free lane on the left; the commit's own lane ends.
    assert_eq!(edges, vec![None, Some(0)]);
    assert_eq!(lanes, vec![some("p2"), None]);
}

#[test]
fn free_lane_reuses_a_hole_or_grows() {
    let mut lanes = vec![some("x"), None, some("y")];
    assert_eq!(free_lane(&mut lanes), 1);
    assert_eq!(lanes.len(), 3);
    let mut full = vec![some("x")];
    assert_eq!(free_lane(&mut full), 1);
    assert_eq!(full, vec![some("x"), None]);
}

#[test]
fn the_next_cursor_carries_every_lane() {
    let lanes = vec![some("aa"), None, some("bb"), None];
    let cursor = next_cursor(&lanes).unwrap();
    assert_eq!(cursor, "v2.aa.-.bb");
    assert_eq!(
        decode_cursor(&cursor),
        Some(vec![
            LaneSlot::Waiting("aa".to_owned()),
            LaneSlot::Free,
            LaneSlot::Waiting("bb".to_owned())
        ])
    );
}

#[test]
fn completion_prefix_splits_at_the_last_slash() {
    assert_eq!(split_prefix("src/par"), ("src".to_owned(), "par".to_owned()));
    assert_eq!(split_prefix("Car"), (String::new(), "Car".to_owned()));
    assert_eq!(split_prefix("a/b/"), ("a/b".to_owned(), String::new()));
}

#[test]
fn completions_mark_folders_and_respect_the_limit() {
    let entries = vec![
        TreeName { name: Some("parse".to_owned()), is_dir: true },
        TreeName { name: None, is_dir: false },
        TreeName { name: Some("patch.rs".to_owned()), is_dir: false },
        TreeName { name: Some("model.rs".to_owned()), is_dir: false },
        TreeName { name: Some("path.rs".to_owned()), is_dir: false },
    ];
    assert_eq!(
        complete_paths("src", "pa", &entries, 10),
        vec!["src/parse/", "src/patch.rs", "src/path.rs"]
    );
    assert_eq!(complete_paths("", "pa", &entries, 2), vec!["parse/", "patch.rs"]);
    assert!(complete_paths("", "", &entries, 0).is_empty());
}

#[test]
fn operations_map_to_the_five_states() {
    assert_eq!(repo_state(Operation::Clean), RepoState::Clean);
    assert_eq!(repo_state(Operation::RebaseInteractive), RepoState::Rebase);
    assert_eq!(repo_state(Operation::CherryPickSequence), RepoState::CherryPick);
    assert_eq!(repo_state(Operation::RevertSequence), RepoState::Revert);
    assert_eq!(repo_state(Operation::ApplyMailbox), RepoState::Clean);
    assert_eq!(repo_state(Operation::Merge), RepoState::Merge);
    assert_eq!(repo_state(Operation::Bisect), RepoState::Bisect);
}

/// Walks `steps` from `lanes`, giving each commit's lane and edges.
fn walk_steps(lanes: &mut Vec<Option<String>>, steps: &[(&str, Vec<&str>)]) -> Vec<(usize, Vec<Option<usize>>)> {
    steps
        .iter()
        .map(|(oid, parents)| {
            let links: Vec<ParentLink> = parents.iter().map(|p| parent(p)).collect();
            place_commit(lanes, &oid.to_string(), &links)
        })
        .collect()
}

#[test]
fn two_pages_fit_together_like_one() {
    // merge <- (b, f1); f1 <- x; b <- a; x <- a; a is the root.
    let steps: Vec<(&str, Vec<&str>)> = vec![
        ("merge", vec!["b", "f1"]),
        ("f1", vec!["x"]),
        ("b", vec!["a"]),
        ("x", vec!["a"]),
        ("a", vec![]),
    ];
    let mut one = vec![some("merge")];
    let whole = walk_steps(&mut one, &steps);

    let mut lanes = vec![some("merge")];
    let mut paged = walk_steps(&mut lanes, &steps[..2]);
    let cursor = next_cursor(&lanes).unwrap();
    let mut resumed: Vec<Option<String>> = decode_cursor(&cursor)
        .unwrap()
        .into_iter()
        .map(|slot| match slot {
            LaneSlot::Free => None,
            LaneSlot::Waiting(oid) => Some(oid),
        })
        .collect();
    paged.extend(walk_steps(&mut resumed, &steps[2..]));
    assert_eq!(paged, whole);
}

#[test]
fn the_display_name_is_the_last_normal_component() {
    assert_eq!(display_name("/srv/porcelain/"), "porcelain");
    assert_eq!(display_name("/srv/./porcelain/."), "porcelain");
    assert_eq!(display_name("/srv//porcelain.git"), "porcelain");
    assert_eq!(display_name("/"), "/");
    assert_eq!(display_name("/srv/.."), "/srv/..");
}
