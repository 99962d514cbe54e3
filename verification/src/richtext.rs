//! Rich text as used in upstream skill descriptions.
//!
//! Upstream descriptions carry inline markup such as
//! `productivity <@cc.vup>+15%</>` or
//! `all <$cc.tag.knight><@cc.kw>Knight</></> Operators`. This module holds
//! the parsed tree and what the evaluator reads from it.

use vstd::prelude::*;

verus! {

/// A markup tag wrapping a span of text.
#[derive(Debug, Clone, PartialEq, Eq, Hash)]
pub enum RichTag {
    /// `<@cc.vup>`: a value that increased (green in-game).
    ValueUp,
    /// `<@cc.vdown>`: a value that decreased (red in-game).
    ValueDown,
    /// `<@cc.kw>`: keyword highlight.
    Keyword,
    /// `<@cc.rem>`: reminder / fine print.
    Reminder,
    /// `<$cc....>`: a tooltip reference to a glossary term (faction, tag,
    /// skill). The value is the term id without the `$` sigil, e.g.
    /// `cc.tag.knight`.
    Term(String),
    /// Any other `<@...>` tag not classified. Kept verbatim so nothing is
    /// lost.
    Other(String),
}

/// One node of a rich-text tree.
#[derive(Debug, PartialEq, Eq, Hash)]
pub enum RichNode {
    /// Literal text.
    Text {
        /// The text.
        text: String,
    },
    /// A tagged span with nested content.
    Tagged {
        /// The wrapping tag.
        tag: RichTag,
        /// Nested nodes.
        children: Vec<RichNode>,
    },
}

/// A parsed rich-text string.
#[derive(Debug, PartialEq, Eq, Hash)]
pub struct RichText(pub Vec<RichNode>);

/// The text of a node with all markup stripped.
pub open spec fn node_plain(n: RichNode) -> Seq<char>
    decreases n,
{
    match n {
        RichNode::Text { text } => text@,
        RichNode::Tagged { tag, children } => nodes_plain(children@),
    }
}

/// The text of a list of nodes with all markup stripped.
pub open spec fn nodes_plain(s: Seq<RichNode>) -> Seq<char>
    decreases s,
{
    if s.len() == 0 {
        Seq::empty()
    } else {
        nodes_plain(s.subrange(0, s.len() - 1)) + node_plain(s[s.len() - 1])
    }
}


/// The plain text of two node lists one after the other is the plain text of
/// the first followed by that of the second.
pub proof fn law_plain_concat(a: Seq<RichNode>, b: Seq<RichNode>)
    ensures
        nodes_plain(a + b) == nodes_plain(a) + nodes_plain(b),
    decreases b.len(),
{
    if b.len() == 0 {
        assert(a + b =~= a);
        assert(nodes_plain(b) =~= Seq::<char>::empty());
        assert(nodes_plain(a) + nodes_plain(b) =~= nodes_plain(a));
    } else {
        let c = b.subrange(0, b.len() - 1);
        law_plain_concat(a, c);
        assert((a + b).subrange(0, (a + b).len() - 1) =~= a + c);
        assert((a + b)[(a + b).len() - 1] == b[b.len() - 1]);
        assert(nodes_plain(a) + nodes_plain(c) + node_plain(b[b.len() - 1]) =~= nodes_plain(a) + (
        nodes_plain(c) + node_plain(b[b.len() - 1])));
    }
}

/// Every tagged span of a node, in document order (a span before the spans
/// nested in it), with the plain text it wraps.
pub open spec fn node_spans(n: RichNode) -> Seq<(RichTag, Seq<char>)>
    decreases n,
{
    match n {
        RichNode::Text { text } => Seq::empty(),
        RichNode::Tagged { tag, children } => seq![(tag, nodes_plain(children@))] + nodes_spans(children@),
    }
}

/// Every tagged span of a list of nodes, in document order.
pub open spec fn nodes_spans(s: Seq<RichNode>) -> Seq<(RichTag, Seq<char>)>
    decreases s,
{
    if s.len() == 0 {
        Seq::empty()
    } else {
        nodes_spans(s.subrange(0, s.len() - 1)) + node_spans(s[s.len() - 1])
    }
}

/// The texts of the spans whose flag is set, in order.
pub open spec fn chosen(spans: Seq<(RichTag, Seq<char>)>, flags: Seq<bool>) -> Seq<Seq<char>>
    decreases spans.len(),
{
    if spans.len() == 0 {
        Seq::empty()
    } else {
        let prev = chosen(spans.drop_last(), flags.drop_last());
        if flags.last() {
            prev.push(spans.last().1)
        } else {
            prev
        }
    }
}

/// The characters of each string in a list.
pub open spec fn strings_view(v: Seq<String>) -> Seq<Seq<char>> {
    v.map_values(|s: String| s@)
}

/// Choosing from two lists of spans is choosing from each.
pub proof fn lemma_chosen_concat(
    a: Seq<(RichTag, Seq<char>)>,
    fa: Seq<bool>,
    b: Seq<(RichTag, Seq<char>)>,
    fb: Seq<bool>,
)
    requires
        a.len() == fa.len(),
        b.len() == fb.len(),
    ensures
        chosen(a + b, fa + fb) == chosen(a, fa) + chosen(b, fb),
    decreases b.len(),
{
    if b.len() == 0 {
        assert(a + b =~= a);
        assert(fa + fb =~= fa);
    } else {
        lemma_chosen_concat(a, fa, b.drop_last(), fb.drop_last());
        assert((a + b).drop_last() =~= a + b.drop_last());
        assert((fa + fb).drop_last() =~= fa + fb.drop_last());
    }
}

/// One more node, one more step of each listing over a list of nodes.
proof fn lemma_nodes_step(s: Seq<RichNode>, i: int)
    requires
        0 <= i < s.len(),
    ensures
        nodes_plain(s.take(i + 1)) == nodes_plain(s.take(i)) + node_plain(s[i]),
        nodes_spans(s.take(i + 1)) == nodes_spans(s.take(i)) + node_spans(s[i]),
{
    assert(s.take(i + 1).subrange(0, i) =~= s.take(i));
}

/// Appends a node's plain text.
fn write_plain(node: &RichNode, out: &mut String)
    ensures
        final(out)@ == old(out)@ + node_plain(*node),
    decreases node,
{
    match node {
        RichNode::Text { text } => {
            out.append(text.as_str());
            proof {
                assert(final(out)@ == old(out)@ + text@);
            }
        },
        RichNode::Tagged { children, .. } => {
            let ghost start = out@;
            let mut i: usize = 0;
            proof {
                assert(children@.take(0) =~= Seq::<RichNode>::empty());
                assert(out@ =~= start + nodes_plain(children@.take(0)));
            }
            while i < children.len()
                invariant
                    node is Tagged,
                    node->children == *children,
                    i <= children@.len(),
                    out@ == start + nodes_plain(children@.take(i as int)),
                decreases children@.len() - i,
            {
                proof {
                    lemma_nodes_step(children@, i as int);
                    assert(decreases_to!(children@ => children@[i as int]));
                    assert(decreases_to!(*children => children@));
                    assert(decreases_to!(*node => node->children));
                }
                write_plain(&children[i], out);
                proof {
                    assert(out@ =~= start + nodes_plain(children@.take(i + 1)));
                }
                i = i + 1;
            }
            proof {
                assert(children@.take(children@.len() as int) =~= children@);
            }
        },
    }
}

impl RichText {
    /// A rich text containing only plain text.
    pub fn text(s: &str) -> (r: Self)
        ensures
            r.0@.len() == 1,
            r.0@[0] matches RichNode::Text { text } && text@ == s@,
    {
        RichText(vec![RichNode::Text { text: s.to_owned() }])
    }

    /// The nodes at the top level.
    pub fn nodes(&self) -> (r: &[RichNode])
        ensures
            r@ == self.0@,
    {
        self.0.as_slice()
    }

    /// The text with all markup stripped.
    pub fn plain(&self) -> (r: String)
        ensures
            r@ == nodes_plain(self.0@),
    {
        let mut out = String::new();
        let mut i: usize = 0;
        proof {
            assert(self.0@.take(0) =~= Seq::<RichNode>::empty());
            assert(out@ =~= nodes_plain(self.0@.take(0)));
        }
        while i < self.0.len()
            invariant
                i <= self.0@.len(),
                out@ == nodes_plain(self.0@.take(i as int)),
            decreases self.0@.len() - i,
        {
            proof {
                lemma_nodes_step(self.0@, i as int);
            }
            write_plain(&self.0[i], &mut out);
            i = i + 1;
        }
        proof {
            assert(self.0@.take(self.0@.len() as int) =~= self.0@);
        }
        out
    }
}


/// `flags` holds, for each span, an answer `pred` may give for its tag.
pub open spec fn answered<F: Fn(&RichTag) -> bool>(pred: F, spans: Seq<(RichTag, Seq<char>)>, flags: Seq<bool>) -> bool {
    &&& flags.len() == spans.len()
    &&& forall|k: int| 0 <= k < spans.len() ==> call_ensures(pred, (&spans[k].0,), #[trigger] flags[k])
}

/// The plain text of a list of nodes.
fn plain_of(nodes: &Vec<RichNode>) -> (r: String)
    ensures
        r@ == nodes_plain(nodes@),
{
    let mut out = String::new();
    let mut i: usize = 0;
    proof {
        assert(nodes@.take(0) =~= Seq::<RichNode>::empty());
        assert(out@ =~= nodes_plain(nodes@.take(0)));
    }
    while i < nodes.len()
        invariant
            i <= nodes@.len(),
            out@ == nodes_plain(nodes@.take(i as int)),
        decreases nodes@.len() - i,
    {
        proof {
            lemma_nodes_step(nodes@, i as int);
        }
        write_plain(&nodes[i], &mut out);
        i = i + 1;
    }
    proof {
        assert(nodes@.take(nodes@.len() as int) =~= nodes@);
    }
    out
}

/// Appends the plain text of every span of a node whose tag `pred`
/// accepts, and gives back the answers `pred` gave.
fn collect_tagged<F: Fn(&RichTag) -> bool>(node: &RichNode, pred: &F, out: &mut Vec<String>) -> (flags: Ghost<Seq<bool>>)
    requires
        forall|t: &RichTag| pred.requires((t,)),
    ensures
        answered(*pred, node_spans(*node), flags@),
        strings_view(final(out)@) == strings_view(old(out)@) + chosen(node_spans(*node), flags@),
    decreases node,
{
    match node {
        RichNode::Text { .. } => {
            proof {
                assert(strings_view(out@) =~= strings_view(out@) + chosen(node_spans(*node), Seq::empty()));
            }
            Ghost(Seq::empty())
        },
        RichNode::Tagged { tag, children } => {
            let ghost start = strings_view(out@);
            let ghost head = seq![(*tag, nodes_plain(children@))];
            let b = pred(tag);
            if b {
                let text = plain_of(children);
                let ghost before = out@;
                out.push(text);
                proof {
                    assert(strings_view(out@) =~= strings_view(before).push(nodes_plain(children@)));
                }
            }
            let ghost mut flags: Seq<bool> = seq![b];
            proof {
                assert(chosen(head, flags) =~= (if b { seq![nodes_plain(children@)] } else { Seq::empty() })) by {
                    assert(head.drop_last() =~= Seq::<(RichTag, Seq<char>)>::empty());
                    assert(flags.drop_last() =~= Seq::<bool>::empty());
                    assert(chosen(head.drop_last(), flags.drop_last()) == Seq::<Seq<char>>::empty());
                }
                assert(children@.take(0) =~= Seq::<RichNode>::empty());
                assert(head + nodes_spans(children@.take(0)) =~= head);
                assert(strings_view(out@) =~= start + chosen(head + nodes_spans(children@.take(0)), flags));
            }
            let mut i: usize = 0;
            while i < children.len()
                invariant
                    node is Tagged,
                    node->children == *children,
                    node->tag == *tag,
                    head == seq![(*tag, nodes_plain(children@))],
                    forall|t: &RichTag| pred.requires((t,)),
                    i <= children@.len(),
                    answered(*pred, head + nodes_spans(children@.take(i as int)), flags),
                    strings_view(out@) == start + chosen(head + nodes_spans(children@.take(i as int)), flags),
                decreases children@.len() - i,
            {
                proof {
                    lemma_nodes_step(children@, i as int);
                    assert(decreases_to!(children@ => children@[i as int]));
                    assert(decreases_to!(*children => children@));
                    assert(decreases_to!(*node => node->children));
                }
                let ghost prev = head + nodes_spans(children@.take(i as int));
                let ghost before = strings_view(out@);
                let g = collect_tagged(&children[i], pred, out);
                proof {
                    let more = node_spans(children@[i as int]);
                    lemma_chosen_concat(prev, flags, more, g@);
                    assert(head + nodes_spans(children@.take(i + 1)) =~= prev + more);
                    let nf = flags + g@;
                    assert forall|k: int| 0 <= k < (prev + more).len() implies call_ensures(
                        *pred,
                        (&(prev + more)[k].0,),
                        #[trigger] nf[k],
                    ) by {
                        if k < prev.len() {
                            assert(nf[k] == flags[k]);
                            assert((prev + more)[k] == prev[k]);
                        } else {
                            assert(nf[k] == g@[k - prev.len()]);
                            assert((prev + more)[k] == more[k - prev.len()]);
                        }
                    }
                    flags = nf;
                    assert(strings_view(out@) =~= start + chosen(head + nodes_spans(children@.take(i + 1)), flags));
                }
                i = i + 1;
            }
            proof {
                assert(children@.take(children@.len() as int) =~= children@);
            }
            Ghost(flags)
        },
    }
}

impl RichText {
    /// Plain text of every tagged span (at any depth) whose tag satisfies
    /// `pred`, in document order.
    pub fn find_tagged<F: Fn(&RichTag) -> bool>(&self, pred: F) -> (r: Vec<String>)
        requires
            forall|t: &RichTag| pred.requires((t,)),
        ensures
            exists|flags: Seq<bool>| #[trigger] answered(pred, nodes_spans(self.0@), flags) && strings_view(r@)
                == chosen(nodes_spans(self.0@), flags),
    {
        let mut out: Vec<String> = Vec::new();
        let ghost mut flags: Seq<bool> = Seq::empty();
        let mut i: usize = 0;
        proof {
            assert(self.0@.take(0) =~= Seq::<RichNode>::empty());
            assert(strings_view(out@) =~= chosen(nodes_spans(self.0@.take(0)), flags));
        }
        while i < self.0.len()
            invariant
                forall|t: &RichTag| pred.requires((t,)),
                i <= self.0@.len(),
                answered(pred, nodes_spans(self.0@.take(i as int)), flags),
                strings_view(out@) == chosen(nodes_spans(self.0@.take(i as int)), flags),
            decreases self.0@.len() - i,
        {
            proof {
                lemma_nodes_step(self.0@, i as int);
            }
            let ghost prev = nodes_spans(self.0@.take(i as int));
            let g = collect_tagged(&self.0[i], &pred, &mut out);
            proof {
                let more = node_spans(self.0@[i as int]);
                lemma_chosen_concat(prev, flags, more, g@);
                let nf = flags + g@;
                assert forall|k: int| 0 <= k < (prev + more).len() implies call_ensures(
                    pred,
                    (&(prev + more)[k].0,),
                    #[trigger] nf[k],
                ) by {
                    if k < prev.len() {
                        assert(nf[k] == flags[k]);
                        assert((prev + more)[k] == prev[k]);
                    } else {
                        assert(nf[k] == g@[k - prev.len()]);
                        assert((prev + more)[k] == more[k - prev.len()]);
                    }
                }
                flags = nf;
            }
            i = i + 1;
        }
        proof {
            assert(self.0@.take(self.0@.len() as int) =~= self.0@);
        }
        out
    }
}


/// For each span, whether its tag is `tag`.
pub open spec fn tag_flags(spans: Seq<(RichTag, Seq<char>)>, tag: RichTag) -> Seq<bool> {
    spans.map_values(|sp: (RichTag, Seq<char>)| sp.0 == tag)
}

/// The tags of a list of nodes, in document order.
pub open spec fn nodes_tags(s: Seq<RichNode>) -> Seq<RichTag> {
    nodes_spans(s).map_values(|sp: (RichTag, Seq<char>)| sp.0)
}

/// The glossary term ids among a list of tags, in order.
pub open spec fn tag_terms(tags: Seq<RichTag>) -> Seq<Seq<char>>
    decreases tags.len(),
{
    if tags.len() == 0 {
        Seq::empty()
    } else {
        let prev = tag_terms(tags.drop_last());
        match tags.last() {
            RichTag::Term(t) => prev.push(t@),
            _ => prev,
        }
    }
}

/// The tags a borrowed list names.
pub open spec fn tags_view(v: Seq<&RichTag>) -> Seq<RichTag> {
    v.map_values(|t: &RichTag| *t)
}

/// Appends the tags of a node, in document order.
fn collect_tags<'a>(node: &'a RichNode, out: &mut Vec<&'a RichTag>)
    ensures
        tags_view(final(out)@) == tags_view(old(out)@) + node_spans(*node).map_values(|sp: (RichTag, Seq<char>)| sp.0),
    decreases node,
{
    match node {
        RichNode::Text { .. } => {
            proof {
                assert(tags_view(out@) =~= tags_view(out@) + node_spans(*node).map_values(|sp: (RichTag, Seq<char>)| sp.0));
            }
        },
        RichNode::Tagged { tag, children } => {
            let ghost start = tags_view(out@);
            let ghost before = out@;
            out.push(tag);
            proof {
                assert(tags_view(out@) =~= tags_view(before).push(*tag));
                assert(children@.take(0) =~= Seq::<RichNode>::empty());
            }
            let mut i: usize = 0;
            while i < children.len()
                invariant
                    node is Tagged,
                    node->children == *children,
                    i <= children@.len(),
                    tags_view(out@) == start + seq![*tag] + nodes_spans(children@.take(i as int)).map_values(
                        |sp: (RichTag, Seq<char>)| sp.0,
                    ),
                decreases children@.len() - i,
            {
                proof {
                    lemma_nodes_step(children@, i as int);
                    assert(decreases_to!(children@ => children@[i as int]));
                    assert(decreases_to!(*children => children@));
                    assert(decreases_to!(*node => node->children));
                }
                collect_tags(&children[i], out);
                proof {
                    let a = nodes_spans(children@.take(i as int));
                    let b = node_spans(children@[i as int]);
                    assert((a + b).map_values(|sp: (RichTag, Seq<char>)| sp.0) =~= a.map_values(
                        |sp: (RichTag, Seq<char>)| sp.0,
                    ) + b.map_values(|sp: (RichTag, Seq<char>)| sp.0));
                }
                i = i + 1;
            }
            proof {
                assert(children@.take(children@.len() as int) =~= children@);
                let sp = node_spans(*node);
                assert(sp.map_values(|x: (RichTag, Seq<char>)| x.0) =~= seq![*tag] + nodes_spans(children@).map_values(
                    |x: (RichTag, Seq<char>)| x.0,
                ));
            }
        },
    }
}

impl RichText {
    /// Text of every `<@cc.vup>` span, e.g. `["+15%"]`.
    pub fn values_up(&self) -> (r: Vec<String>)
        ensures
            strings_view(r@) == chosen(nodes_spans(self.0@), tag_flags(nodes_spans(self.0@), RichTag::ValueUp)),
    {
        let up = |t: &RichTag| -> (b: bool)
            ensures
                b == (*t == RichTag::ValueUp),
            {
                match t {
                    RichTag::ValueUp => true,
                    _ => false,
                }
            };
        let r = self.find_tagged(up);
        proof {
            let spans = nodes_spans(self.0@);
            let flags = choose|flags: Seq<bool>| #[trigger] answered(up, spans, flags) && strings_view(r@) == chosen(spans, flags);
            assert(flags =~= tag_flags(spans, RichTag::ValueUp));
        }
        r
    }

    /// Text of every `<@cc.vdown>` span.
    pub fn values_down(&self) -> (r: Vec<String>)
        ensures
            strings_view(r@) == chosen(nodes_spans(self.0@), tag_flags(nodes_spans(self.0@), RichTag::ValueDown)),
    {
        let down = |t: &RichTag| -> (b: bool)
            ensures
                b == (*t == RichTag::ValueDown),
            {
                match t {
                    RichTag::ValueDown => true,
                    _ => false,
                }
            };
        let r = self.find_tagged(down);
        proof {
            let spans = nodes_spans(self.0@);
            let flags = choose|flags: Seq<bool>| #[trigger] answered(down, spans, flags) && strings_view(r@) == chosen(spans, flags);
            assert(flags =~= tag_flags(spans, RichTag::ValueDown));
        }
        r
    }

    /// Every tag in the tree, in document order, for the caller to visit.
    pub fn visit_tags(&self) -> (r: Vec<&RichTag>)
        ensures
            tags_view(r@) == nodes_tags(self.0@),
    {
        let mut out: Vec<&RichTag> = Vec::new();
        let mut i: usize = 0;
        proof {
            assert(self.0@.take(0) =~= Seq::<RichNode>::empty());
            assert(tags_view(out@) =~= nodes_tags(self.0@.take(0)));
        }
        while i < self.0.len()
            invariant
                i <= self.0@.len(),
                tags_view(out@) == nodes_tags(self.0@.take(i as int)),
            decreases self.0@.len() - i,
        {
            proof {
                lemma_nodes_step(self.0@, i as int);
                let a = nodes_spans(self.0@.take(i as int));
                let b = node_spans(self.0@[i as int]);
                assert((a + b).map_values(|sp: (RichTag, Seq<char>)| sp.0) =~= a.map_values(
                    |sp: (RichTag, Seq<char>)| sp.0,
                ) + b.map_values(|sp: (RichTag, Seq<char>)| sp.0));
            }
            collect_tags(&self.0[i], &mut out);
            i = i + 1;
        }
        proof {
            assert(self.0@.take(self.0@.len() as int) =~= self.0@);
        }
        out
    }

    /// Every glossary term referenced, in document order (may repeat).
    pub fn terms(&self) -> (r: Vec<String>)
        ensures
            strings_view(r@) == tag_terms(nodes_tags(self.0@)),
    {
        let tags = self.visit_tags();
        let ghost all = nodes_tags(self.0@);
        let mut out: Vec<String> = Vec::new();
        let mut i: usize = 0;
        proof {
            assert(all.take(0) =~= Seq::<RichTag>::empty());
            assert(strings_view(out@) =~= tag_terms(all.take(0)));
        }
        while i < tags.len()
            invariant
                tags_view(tags@) == all,
                i <= tags@.len(),
                strings_view(out@) == tag_terms(all.take(i as int)),
            decreases tags@.len() - i,
        {
            proof {
                assert(all.take(i + 1).drop_last() =~= all.take(i as int));
                assert(all[i as int] == *tags@[i as int]);
            }
            match tags[i] {
                RichTag::Term(term) => {
                    let ghost before = out@;
                    out.push(term.clone());
                    proof {
                        assert(strings_view(out@) =~= strings_view(before).push(term@));
                    }
                },
                _ => {},
            }
            i = i + 1;
        }
        proof {
            assert(all.take(all.len() as int) =~= all);
        }
        out
    }
}


impl Default for RichText {
    /// No nodes.
    fn default() -> (r: Self)
        ensures
            r.0@.len() == 0,
    {
        RichText(Vec::new())
    }
}

} // verus!
