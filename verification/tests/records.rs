use porcelain::records::{RecordSplitter, StreamedCommit};

fn record(oid: &str, author: &str, email: &str, time: &str, summary: &str) -> Vec<u8> {
    [oid, author, email, time, summary]
        .iter()
        .flat_map(|field| field.bytes().chain(std::iter::once(0)))
        .collect()
}

#[test]
fn um_chunk_com_varios_commits() {
    let mut bytes = record("aaa", "Ana", "ana@example.com", "1700000000", "primeiro");
    bytes.extend(record(
        "bbb",
        "Bia",
        "bia@example.com",
        "1700000001",
        "segundo",
    ));

    let mut splitter = RecordSplitter::default();
    let commits = splitter.push(&bytes);

    assert_eq!(commits.len(), 2);
    assert_eq!(commits[0].oid, "aaa");
    assert_eq!(commits[0].time, 1_700_000_000);
    assert_eq!(commits[1].oid, "bbb");
    assert_eq!(commits[1].summary, "segundo");
}

#[test]
fn commit_partido_no_meio_de_um_campo_espera_o_resto() {
    let bytes = record("aaa", "Ana", "ana@example.com", "1700000000", "primeiro");

    let mut splitter = RecordSplitter::default();
    let mid = bytes.iter().position(|&b| b == 0).unwrap() + 6;

    assert!(splitter.push(&bytes[..mid]).is_empty());
    let commits = splitter.push(&bytes[mid..]);

    assert_eq!(commits.len(), 1);
    assert_eq!(commits[0].oid, "aaa");
    assert_eq!(commits[0].email, "ana@example.com");
}

#[test]
fn campo_de_data_ilegivel_vira_zero_em_vez_de_derrubar_o_commit() {
    let bytes = record("aaa", "Ana", "ana@example.com", "nao-e-numero", "x");

    let mut splitter = RecordSplitter::default();
    let commits = splitter.push(&bytes);

    assert_eq!(commits.len(), 1);
    assert_eq!(commits[0].time, 0);
}

#[test]
fn nada_sobra_sem_nul_no_final() {
    let mut splitter = RecordSplitter::default();
    let mut bytes = record("aaa", "Ana", "ana@example.com", "1700000000", "x");
    bytes.pop();

    assert!(splitter.push(&bytes).is_empty());
}

#[test]
fn byte_by_byte_reads_give_the_same_commits() {
    let mut bytes = record("aaa", "Ana", "ana@example.com", "1700000000", "primeiro");
    bytes.extend(record("bbb", "Bia", "bia@example.com", "-5", "segundo"));

    let mut whole = RecordSplitter::default();
    let expected = whole.push(&bytes);

    let mut splitter = RecordSplitter::default();
    let mut got: Vec<StreamedCommit> = Vec::new();
    for byte in &bytes {
        got.extend(splitter.push(std::slice::from_ref(byte)));
    }
    assert_eq!(got, expected);
    assert_eq!(got[1].time, -5);
    assert_eq!(got[1].author, "Bia");
}

#[test]
fn invalid_utf8_in_a_field_is_replaced_not_fatal() {
    let mut bytes = b"ccc\0Jo\xe3o\0j@example.com\0+42\0fix\0".to_vec();
    bytes.extend(record("ddd", "D", "d@example.com", "99999999999999999999", "big"));
    let mut splitter = RecordSplitter::default();
    let commits = splitter.push(&bytes);
    assert_eq!(commits.len(), 2);
    assert_eq!(commits[0].author, "Jo\u{fffd}o");
    assert_eq!(commits[0].time, 42);
    // Out of range for an i64: reads as zero.
    assert_eq!(commits[1].time, 0);
}
