use fts_mecab_rs::node::{
    NodeStat, MECAB_BOS_NODE, MECAB_EON_NODE, MECAB_EOS_NODE, MECAB_NOR_NODE, MECAB_UNK_NODE,
};

#[test]
fn each_known_code_has_its_category() {
    assert_eq!(NodeStat::try_from(0u8), Ok(NodeStat::NOR));
    assert_eq!(NodeStat::try_from(1u8), Ok(NodeStat::UNK));
    assert_eq!(NodeStat::try_from(2u8), Ok(NodeStat::BOS));
    assert_eq!(NodeStat::try_from(3u8), Ok(NodeStat::EOS));
    assert_eq!(NodeStat::try_from(4u8), Ok(NodeStat::EON));
    assert_eq!(NodeStat::try_from(MECAB_NOR_NODE), Ok(NodeStat::NOR));
    assert_eq!(NodeStat::try_from(MECAB_UNK_NODE), Ok(NodeStat::UNK));
    assert_eq!(NodeStat::try_from(MECAB_BOS_NODE), Ok(NodeStat::BOS));
    assert_eq!(NodeStat::try_from(MECAB_EOS_NODE), Ok(NodeStat::EOS));
    assert_eq!(NodeStat::try_from(MECAB_EON_NODE), Ok(NodeStat::EON));
}

#[test]
fn an_unknown_code_is_handed_back() {
    assert_eq!(NodeStat::try_from(5u8), Err(5u8));
    assert_eq!(NodeStat::try_from(200u8), Err(200u8));
    assert_eq!(NodeStat::try_from(u8::MAX), Err(u8::MAX));
    for code in 5..=u8::MAX {
        assert_eq!(NodeStat::try_from(code), Err(code));
    }
}

#[test]
fn categories_are_shown_under_the_analyzer_s_names() {
    assert_eq!(NodeStat::NOR.name(), "MECAB_NOR_NODE");
    assert_eq!(NodeStat::UNK.name(), "MECAB_UNK_NODE");
    assert_eq!(NodeStat::BOS.name(), "MECAB_BOS_NODE");
    assert_eq!(NodeStat::EOS.name(), "MECAB_EOS_NODE");
    assert_eq!(NodeStat::EON.name(), "MECAB_EON_NODE");
}

#[test]
fn only_sentence_begin_and_end_are_boundaries() {
    assert!(NodeStat::BOS.is_boundary());
    assert!(NodeStat::EOS.is_boundary());
    assert!(!NodeStat::NOR.is_boundary());
    assert!(!NodeStat::UNK.is_boundary());
    assert!(!NodeStat::EON.is_boundary());
}
