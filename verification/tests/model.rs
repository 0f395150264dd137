use porcelain::model::{decode_cursor, encode_cursor, Head, LaneSlot};

#[test]
fn cursor_vai_e_volta() {
    let lanes = vec![
        LaneSlot::Waiting("0b61c6f0000000000000000000000000000000aa".to_owned()),
        LaneSlot::Free,
        LaneSlot::Waiting("2cea64a0000000000000000000000000000000bb".to_owned()),
    ];

    let cursor = encode_cursor(&lanes);
    assert_eq!(decode_cursor(&cursor), Some(lanes));
}

#[test]
fn lanes_livres_do_final_sao_cortadas_mas_nao_as_do_meio() {
    let lanes = vec![
        LaneSlot::Waiting("0b61c6f0000000000000000000000000000000aa".to_owned()),
        LaneSlot::Free,
        LaneSlot::Free,
    ];

    let cursor = encode_cursor(&lanes);
    assert_eq!(
        decode_cursor(&cursor),
        Some(vec![LaneSlot::Waiting(
            "0b61c6f0000000000000000000000000000000aa".to_owned()
        )])
    );
}

#[test]
fn cursor_de_outro_formato_nao_decodifica() {
    for cursor in ["", "v2.", "v1.0b61c6f", "lixo"] {
        assert_eq!(decode_cursor(cursor), None, "cursor {cursor:?}");
    }
}

#[test]
fn cursor_text_is_dotted_hex_with_dashes_for_free_lanes() {
    let lanes = vec![
        LaneSlot::Free,
        LaneSlot::Waiting("ab".to_owned()),
        LaneSlot::Free,
        LaneSlot::Waiting("cd".to_owned()),
        LaneSlot::Free,
    ];
    assert_eq!(encode_cursor(&lanes), "v2.-.ab.-.cd");
    assert_eq!(encode_cursor(&[LaneSlot::Free]), "v2.");
    assert_eq!(
        decode_cursor("v2.-.ab"),
        Some(vec![LaneSlot::Free, LaneSlot::Waiting("ab".to_owned())])
    );
}

#[test]
fn head_label_is_the_branch_or_the_short_hash() {
    let branch = Head::Branch {
        name: "main".to_owned(),
        commit: "0b61c6f00000".to_owned(),
    };
    assert_eq!(branch.label(), "main");
    let unborn = Head::Unborn {
        name: "trunk".to_owned(),
    };
    assert_eq!(unborn.label(), "trunk");
    let detached = Head::Detached {
        commit: "0b61c6f0000000000000000000000000000000aa".to_owned(),
    };
    assert_eq!(detached.label(), "0b61c6f");
    let short = Head::Detached {
        commit: "abc".to_owned(),
    };
    assert_eq!(short.label(), "abc");
}
