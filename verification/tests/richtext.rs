use riic_planner::richtext::{RichNode, RichTag, RichText};

fn text(s: &str) -> RichNode {
    RichNode::Text { text: s.to_owned() }
}

fn tagged(tag: RichTag, children: Vec<RichNode>) -> RichNode {
    RichNode::Tagged { tag, children }
}

/// `productivity <@cc.vup>+15%</>, all <$cc.tag.knight><@cc.kw>Knight</></>
/// Operators <@cc.vdown>-1</> morale <$cc.g.rhine>x</>`
fn sample() -> RichText {
    RichText(vec![
        text("productivity "),
        tagged(RichTag::ValueUp, vec![text("+15%")]),
        text(", all "),
        tagged(
            RichTag::Term("cc.tag.knight".to_owned()),
            vec![tagged(RichTag::Keyword, vec![text("Knight")])],
        ),
        text(" Operators "),
        tagged(RichTag::ValueDown, vec![text("-1")]),
        text(" morale "),
        tagged(RichTag::Term("cc.g.rhine".to_owned()), vec![text("x")]),
    ])
}

#[test]
fn plain_strips_every_tag() {
    assert_eq!(sample().plain(), "productivity +15%, all Knight Operators -1 morale x");
    assert_eq!(RichText::text("just words").plain(), "just words");
    assert_eq!(RichText::default().plain(), "");
}

#[test]
fn values_up_and_down_read_their_spans() {
    assert_eq!(sample().values_up(), vec!["+15%".to_owned()]);
    assert_eq!(sample().values_down(), vec!["-1".to_owned()]);
    let nested = RichText(vec![tagged(
        RichTag::ValueUp,
        vec![text("a"), tagged(RichTag::ValueUp, vec![text("b")])],
    )]);
    // The outer span comes first and holds the inner one's text.
    assert_eq!(nested.values_up(), vec!["ab".to_owned(), "b".to_owned()]);
}

#[test]
fn find_tagged_walks_in_document_order() {
    let found = sample().find_tagged(|t| matches!(t, RichTag::Term(_) | RichTag::Keyword));
    assert_eq!(found, vec!["Knight".to_owned(), "Knight".to_owned(), "x".to_owned()]);
    assert!(sample().find_tagged(|_| false).is_empty());
}

#[test]
fn terms_and_tags_in_document_order() {
    assert_eq!(sample().terms(), vec!["cc.tag.knight".to_owned(), "cc.g.rhine".to_owned()]);
    let tags: Vec<RichTag> = sample().visit_tags().into_iter().cloned().collect();
    assert_eq!(
        tags,
        vec![
            RichTag::ValueUp,
            RichTag::Term("cc.tag.knight".to_owned()),
            RichTag::Keyword,
            RichTag::ValueDown,
            RichTag::Term("cc.g.rhine".to_owned()),
        ]
    );
    assert_eq!(sample().nodes().len(), 8);
}

#[test]
fn plain_splits_over_joined_node_lists() {
    let first = vec![text("Factory "), tagged(RichTag::Keyword, vec![text("+10%")])];
    let second = vec![text(" per "), tagged(RichTag::Reminder, vec![text("operator")])];
    let mut both = vec![text("Factory "), tagged(RichTag::Keyword, vec![text("+10%")])];
    both.extend(vec![text(" per "), tagged(RichTag::Reminder, vec![text("operator")])]);
    let joined = RichText(both).plain();
    assert_eq!(joined, format!("{}{}", RichText(first).plain(), RichText(second).plain()));
    assert_eq!(joined, "Factory +10% per operator");
}

