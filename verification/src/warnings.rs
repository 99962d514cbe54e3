//! Warnings about what a run could not model faithfully, recorded once each
//! and handed back in their natural order.

use vstd::prelude::*;
use crate::enums::RoomType;
use crate::ids::{BuffId, FormulaId, OperatorId, RoomId};
use crate::text::{texts, chars_lt, str_eq, str_lt, lemma_chars_lt_irreflexive, lemma_chars_lt_transitive, lemma_chars_lt_total};

verus! {

/// Something the simulator could not model faithfully. Each variant is
/// emitted at most once per run.
#[derive(Debug, Clone, PartialEq, Eq, PartialOrd, Ord)]
pub enum SimWarning {
    /// The description parser rejected this skill's description entirely.
    UnparsedSkill { skill: BuffId },
    /// A recognised-but-unquantified effect; applied nothing.
    UnmodeledEffect { skill: BuffId, summary: String },
    /// A recognised-but-unquantified condition; treated as false.
    UnmodeledPredicate { skill: BuffId, text: String },
    /// A recognised-but-unquantified counter; counted zero.
    UnmodeledCounter { skill: BuffId, text: String },
    /// Resource accumulators are not simulated yet; the effect applied
    /// nothing.
    ResourceNotSimulated { skill: BuffId, resource: String },
    /// A glossary tag with no membership table; counted nobody.
    UnknownTag { skill: BuffId, tag: String },
    /// A subclass display name with no id mapping; matched nobody.
    UnknownSubclassName { skill: BuffId, name: String },
    /// A skill-type glossary id with no family mapping; counted nobody.
    UnknownSkillType { skill: BuffId, family: String },
    /// An operator named in a description that the loader could not
    /// resolve; the reference never matches.
    UnresolvedOperator { skill: BuffId, name: String },
    /// "Becomes N" amounts are not supported yet.
    SetAmountUnsupported { skill: BuffId },
    /// Qualitative clue-type biases have no numeric model.
    ClueBiasIgnored { skill: BuffId },
    /// A stationed operator the roster does not list; assumed maxed.
    OperatorNotInRoster { operator: OperatorId },
    /// A rotation policy named an operator the game data lacks.
    UnknownOperator { operator: OperatorId },
    /// A rotation action could not be applied.
    RotationRefused { operator: OperatorId, reason: String },
    /// A Factory without a formula or a Training Room without a job.
    IdleRoom { room: RoomId, room_kind: RoomType },
    /// A formula bounded by its inputs ran without an input stock, so it
    /// produced nothing.
    InputBoundFormula { room: RoomId, formula: FormulaId },
}

/// What orders warnings, and tells two apart: the variant's position, the
/// texts of its fields in order, and the position of a room kind field.
pub type WarningKey = (int, Seq<Seq<char>>, int);

/// The key of a warning.
pub open spec fn warning_key(w: SimWarning) -> WarningKey {
    match w {
        SimWarning::UnparsedSkill { skill } => (0, seq![skill@], 0),
        SimWarning::UnmodeledEffect { skill, summary } => (1, seq![skill@, summary@], 0),
        SimWarning::UnmodeledPredicate { skill, text } => (2, seq![skill@, text@], 0),
        SimWarning::UnmodeledCounter { skill, text } => (3, seq![skill@, text@], 0),
        SimWarning::ResourceNotSimulated { skill, resource } => (4, seq![skill@, resource@], 0),
        SimWarning::UnknownTag { skill, tag } => (5, seq![skill@, tag@], 0),
        SimWarning::UnknownSubclassName { skill, name } => (6, seq![skill@, name@], 0),
        SimWarning::UnknownSkillType { skill, family } => (7, seq![skill@, family@], 0),
        SimWarning::UnresolvedOperator { skill, name } => (8, seq![skill@, name@], 0),
        SimWarning::SetAmountUnsupported { skill } => (9, seq![skill@], 0),
        SimWarning::ClueBiasIgnored { skill } => (10, seq![skill@], 0),
        SimWarning::OperatorNotInRoster { operator } => (11, seq![operator@], 0),
        SimWarning::UnknownOperator { operator } => (12, seq![operator@], 0),
        SimWarning::RotationRefused { operator, reason } => (13, seq![operator@, reason@], 0),
        SimWarning::IdleRoom { room, room_kind } => (14, seq![room@], room_kind.rank()),
        SimWarning::InputBoundFormula { room, formula } => (15, seq![room@, formula@], 0),
    }
}

/// Lexicographic order on equally long lists of texts.
pub open spec fn fields_lt(a: Seq<Seq<char>>, b: Seq<Seq<char>>) -> bool
    decreases a.len(),
{
    if a.len() == 0 || b.len() == 0 {
        false
    } else if a[0] != b[0] {
        chars_lt(a[0], b[0])
    } else {
        fields_lt(a.drop_first(), b.drop_first())
    }
}

/// The order warnings sort in: by variant, then by fields in declaration
/// order.
pub open spec fn key_lt(a: WarningKey, b: WarningKey) -> bool {
    a.0 < b.0 || (a.0 == b.0 && (fields_lt(a.1, b.1) || (a.1 == b.1 && a.2 < b.2)))
}

/// `fields_lt` is a strict order, total on distinct lists of one length.
pub proof fn lemma_fields_order(a: Seq<Seq<char>>, b: Seq<Seq<char>>, c: Seq<Seq<char>>)
    ensures
        !fields_lt(a, a),
        fields_lt(a, b) && fields_lt(b, c) ==> fields_lt(a, c),
        a.len() == b.len() && a != b ==> fields_lt(a, b) || fields_lt(b, a),
    decreases a.len(),
{
    if a.len() > 0 {
        lemma_fields_order(a.drop_first(), b.drop_first(), c.drop_first());
        lemma_chars_lt_irreflexive(a[0]);
        if b.len() > 0 && c.len() > 0 && fields_lt(a, b) && fields_lt(b, c) {
            if a[0] != b[0] && b[0] != c[0] {
                lemma_chars_lt_transitive(a[0], b[0], c[0]);
                if a[0] == c[0] {
                    lemma_chars_lt_transitive(a[0], b[0], a[0]);
                }
            }
        }
        if a.len() == b.len() && a != b {
            if a[0] != b[0] {
                lemma_chars_lt_total(a[0], b[0]);
            } else {
                assert(a =~= seq![a[0]] + a.drop_first());
                assert(b =~= seq![b[0]] + b.drop_first());
            }
        }
    } else if a.len() == b.len() {
        assert(a =~= b);
    }
}

/// Keys of warnings are ordered strictly and totally.
pub proof fn lemma_key_order(x: SimWarning, y: SimWarning, z: SimWarning)
    ensures
        !key_lt(warning_key(x), warning_key(x)),
        key_lt(warning_key(x), warning_key(y)) && key_lt(warning_key(y), warning_key(z)) ==> key_lt(
            warning_key(x),
            warning_key(z),
        ),
        warning_key(x) != warning_key(y) ==> key_lt(warning_key(x), warning_key(y)) || key_lt(
            warning_key(y),
            warning_key(x),
        ),
{
    let (a, b, c) = (warning_key(x), warning_key(y), warning_key(z));
    lemma_fields_order(a.1, b.1, c.1);
    lemma_fields_order(a.1, a.1, a.1);
    if a.0 == b.0 && b.0 == c.0 {
        if a.1 == b.1 {
        } else if b.1 == c.1 {
        }
    }
    if a.0 == b.0 {
        assert(a.1.len() == b.1.len());
    }
}

/// The key of a warning, computed.
fn key_of(w: &SimWarning) -> (r: (u8, Vec<&str>, u8))
    ensures
        r.0 as int == warning_key(*w).0,
        texts(r.1@) == warning_key(*w).1,
        r.2 as int == warning_key(*w).2,
{
    let (idx, fields, extra): (u8, Vec<&str>, u8) = match w {
        SimWarning::UnparsedSkill { skill } => (0, vec![skill.as_str()], 0),
        SimWarning::UnmodeledEffect { skill, summary } => (1, vec![skill.as_str(), summary.as_str()], 0),
        SimWarning::UnmodeledPredicate { skill, text } => (2, vec![skill.as_str(), text.as_str()], 0),
        SimWarning::UnmodeledCounter { skill, text } => (3, vec![skill.as_str(), text.as_str()], 0),
        SimWarning::ResourceNotSimulated { skill, resource } => (4, vec![skill.as_str(), resource.as_str()], 0),
        SimWarning::UnknownTag { skill, tag } => (5, vec![skill.as_str(), tag.as_str()], 0),
        SimWarning::UnknownSubclassName { skill, name } => (6, vec![skill.as_str(), name.as_str()], 0),
        SimWarning::UnknownSkillType { skill, family } => (7, vec![skill.as_str(), family.as_str()], 0),
        SimWarning::UnresolvedOperator { skill, name } => (8, vec![skill.as_str(), name.as_str()], 0),
        SimWarning::SetAmountUnsupported { skill } => (9, vec![skill.as_str()], 0),
        SimWarning::ClueBiasIgnored { skill } => (10, vec![skill.as_str()], 0),
        SimWarning::OperatorNotInRoster { operator } => (11, vec![operator.as_str()], 0),
        SimWarning::UnknownOperator { operator } => (12, vec![operator.as_str()], 0),
        SimWarning::RotationRefused { operator, reason } => (13, vec![operator.as_str(), reason.as_str()], 0),
        SimWarning::IdleRoom { room, room_kind } => (14, vec![room.as_str()], room_kind.index()),
        SimWarning::InputBoundFormula { room, formula } => (15, vec![room.as_str(), formula.as_str()], 0),
    };
    proof {
        assert(texts(fields@) =~= warning_key(*w).1);
    }
    (idx, fields, extra)
}

/// Compares two keys: -1, 0 or 1.
fn compare_keys(a: &(u8, Vec<&str>, u8), b: &(u8, Vec<&str>, u8)) -> (r: i8)
    requires
        a.0 == b.0 ==> a.1@.len() == b.1@.len(),
    ensures
        ({
            let ka = (a.0 as int, texts(a.1@), a.2 as int);
            let kb = (b.0 as int, texts(b.1@), b.2 as int);
            &&& (r == 0) == (ka == kb)
            &&& (r < 0) == key_lt(ka, kb)
            &&& (r > 0) == key_lt(kb, ka)
        }),
{
    let ghost fa = texts(a.1@);
    let ghost fb = texts(b.1@);
    proof {
        lemma_fields_order(fa, fb, fa);
        lemma_fields_order(fb, fa, fb);
    }
    if a.0 < b.0 {
        return -1;
    }
    if a.0 > b.0 {
        return 1;
    }
    let mut i: usize = 0;
    proof {
        assert(fa.skip(0) =~= fa);
        assert(fb.skip(0) =~= fb);
    }
    while i < a.1.len()
        invariant
            a.0 == b.0,
            a.1@.len() == b.1@.len(),
            fa == texts(a.1@),
            fb == texts(b.1@),
            i <= a.1@.len(),
            fa.take(i as int) == fb.take(i as int),
            fields_lt(fa, fb) == fields_lt(fa.skip(i as int), fb.skip(i as int)),
            fields_lt(fb, fa) == fields_lt(fb.skip(i as int), fa.skip(i as int)),
        decreases a.1@.len() - i,
    {
        let x = a.1[i];
        let y = b.1[i];
        proof {
            assert(fa.skip(i as int)[0] == x@);
            assert(fb.skip(i as int)[0] == y@);
            assert(fa.skip(i as int).drop_first() =~= fa.skip(i + 1));
            assert(fb.skip(i as int).drop_first() =~= fb.skip(i + 1));
        }
        if !str_eq(x, y) {
            proof {
                lemma_chars_lt_total(x@, y@);
                if fa == fb {
                    assert(fa[i as int] == fb[i as int]);
                }
                assert(fa.skip(i as int).len() > 0 && fb.skip(i as int).len() > 0);
                assert(fields_lt(fa.skip(i as int), fb.skip(i as int)) == chars_lt(x@, y@));
                assert(fields_lt(fb.skip(i as int), fa.skip(i as int)) == chars_lt(y@, x@));
            }
            if str_lt(x, y) {
                proof {
                    if chars_lt(y@, x@) {
                        lemma_chars_lt_transitive(x@, y@, x@);
                        lemma_chars_lt_irreflexive(x@);
                    }
                }
                return -1;
            } else {
                return 1;
            }
        }
        proof {
            assert(fa.take(i + 1) =~= fa.take(i as int).push(x@));
            assert(fb.take(i + 1) =~= fb.take(i as int).push(y@));
        }
        i = i + 1;
    }
    proof {
        assert(fa =~= fa.take(i as int));
        assert(fb =~= fb.take(i as int));
        assert(fa.skip(i as int).len() == 0);
    }
    if a.2 < b.2 {
        -1
    } else if a.2 > b.2 {
        1
    } else {
        0
    }
}

/// Whether a list of keys is strictly increasing.
pub open spec fn keys_sorted(s: Seq<WarningKey>) -> bool {
    forall|i: int, j: int| 0 <= i < j < s.len() ==> key_lt(s[i], s[j])
}

/// A de-duplicating warning sink.
#[derive(Debug)]
pub struct Warnings {
    items: Vec<SimWarning>,
}

impl View for Warnings {
    type V = Seq<WarningKey>;

    /// The keys of the recorded warnings, in order.
    closed spec fn view(&self) -> Seq<WarningKey> {
        self.items@.map_values(|w: SimWarning| warning_key(w))
    }
}

impl Warnings {
    /// The recorded warnings are in order, each once.
    pub open spec fn wf(&self) -> bool {
        keys_sorted(self@)
    }

    /// An empty sink.
    pub fn new() -> (r: Self)
        ensures
            r.wf(),
            r@.len() == 0,
    {
        let r = Warnings { items: Vec::new() };
        proof {
            assert(r@ =~= Seq::<WarningKey>::empty());
        }
        r
    }

    /// Records a warning (idempotent).
    pub fn push(&mut self, w: SimWarning)
        requires
            old(self).wf(),
        ensures
            final(self).wf(),
            final(self)@.to_set() == old(self)@.to_set().insert(warning_key(w)),
    {
        let ghost v = self@;
        let ghost k = warning_key(w);
        let kw = key_of(&w);
        let mut i: usize = 0;
        let mut done = false;
        while !done && i < self.items.len()
            invariant
                v == self@,
                k == warning_key(w),
                kw.0 as int == k.0,
                texts(kw.1@) == k.1,
                kw.2 as int == k.2,
                i <= v.len(),
                keys_sorted(v),
                forall|j: int| 0 <= j < i ==> key_lt(#[trigger] v[j], k),
                done ==> i < v.len() && !key_lt(v[i as int], k),
            decreases v.len() - i + (if done { 0int } else { 1int }),
        {
            let ki = key_of(&self.items[i]);
            proof {
                assert(v[i as int] == warning_key(self.items@[i as int]));
                if ki.0 == kw.0 {
                    lemma_key_order(self.items@[i as int], w, w);
                    assert(warning_key(self.items@[i as int]).1.len() == k.1.len());
                }
            }
            if compare_keys(&ki, &kw) < 0 {
                i = i + 1;
            } else {
                done = true;
            }
        }
        let same = if i < self.items.len() {
            let ki = key_of(&self.items[i]);
            proof {
                assert(v[i as int] == warning_key(self.items@[i as int]));
                if ki.0 == kw.0 {
                    lemma_key_order(self.items@[i as int], w, w);
                }
            }
            compare_keys(&ki, &kw) == 0
        } else {
            false
        };
        if same {
            proof {
                assert(v.to_set().insert(k) =~= v.to_set());
            }
            return;
        }
        proof {
            if i < v.len() {
                lemma_key_order(self.items@[i as int], w, w);
            }
        }
        self.items.insert(i, w);
        proof {
            let u = self@;
            let ii = i as int;
            assert(u =~= v.insert(ii, k));
            assert forall|a: int, b: int| 0 <= a < b < u.len() implies key_lt(u[a], u[b]) by {
                if b < ii {
                } else if b == ii {
                } else if a == ii {
                    if b - 1 > ii {
                        lemma_key_order(w, self.items@[ii + 1], self.items@[b]);
                    }
                } else if a < ii {
                } else {
                }
            }
            assert(u.to_set() =~= v.to_set().insert(k)) by {
                assert forall|x: WarningKey| u.to_set().contains(x) <==> v.to_set().insert(k).contains(x) by {
                    if u.to_set().contains(x) {
                        let p = choose|p: int| 0 <= p < u.len() && u[p] == x;
                        if p < ii {
                            assert(v[p] == x);
                        } else if p > ii {
                            assert(v[p - 1] == x);
                        }
                    }
                    if v.to_set().contains(x) {
                        let p = choose|p: int| 0 <= p < v.len() && v[p] == x;
                        if p < ii {
                            assert(u[p] == x);
                        } else {
                            assert(u[p + 1] == x);
                        }
                    }
                    if x == k {
                        assert(u[ii] == x);
                    }
                }
            }
        }
    }

    /// True when nothing was recorded.
    pub fn is_empty(&self) -> (r: bool)
        ensures
            r == (self@.len() == 0),
    {
        self.items.len() == 0
    }

    /// The recorded warnings, in order, each once.
    pub fn into_vec(self) -> (r: Vec<SimWarning>)
        ensures
            r@.map_values(|w: SimWarning| warning_key(w)) == self@,
    {
        self.items
    }
}


/// `key_lt` is irreflexive and transitive on all keys.
pub proof fn lemma_key_lt_strict(a: WarningKey, b: WarningKey, c: WarningKey)
    ensures
        !key_lt(a, a),
        key_lt(a, b) && key_lt(b, c) ==> key_lt(a, c),
{
    lemma_fields_order(a.1, b.1, c.1);
    lemma_fields_order(a.1, a.1, a.1);
}

/// A strictly increasing list of keys is determined by the set of its
/// keys: two sinks that recorded the same warnings, in any order and with
/// any repeats, hand back the same list.
pub proof fn law_sorted_by_set(a: Seq<WarningKey>, b: Seq<WarningKey>)
    requires
        keys_sorted(a),
        keys_sorted(b),
        a.to_set() == b.to_set(),
    ensures
        a == b,
    decreases a.len() + b.len(),
{
    if a.len() == 0 || b.len() == 0 {
        if a.len() > 0 {
            assert(a.to_set().contains(a[0]));
        }
        if b.len() > 0 {
            assert(b.to_set().contains(b[0]));
        }
        assert(a =~= b);
    } else {
        assert(a.to_set().contains(a[0]));
        assert(b.to_set().contains(b[0]));
        let j = choose|j: int| 0 <= j < b.len() && b[j] == a[0];
        let k = choose|k: int| 0 <= k < a.len() && a[k] == b[0];
        lemma_key_lt_strict(a[0], a[0], a[0]);
        if j > 0 {
            if k > 0 {
                lemma_key_lt_strict(a[0], a[k], a[0]);
            }
        }
        assert(a[0] == b[0]);
        let a1 = a.drop_first();
        let b1 = b.drop_first();
        assert forall|x: WarningKey| a1.to_set().contains(x) <==> b1.to_set().contains(x) by {
            if a1.to_set().contains(x) {
                let p = choose|p: int| 0 <= p < a1.len() && a1[p] == x;
                assert(a.to_set().contains(x));
                let q = choose|q: int| 0 <= q < b.len() && b[q] == x;
                if q == 0 {
                    lemma_key_lt_strict(a[0], a[0], a[0]);
                    assert(key_lt(a[0], a[p + 1]));
                }
                assert(b1[q - 1] == x);
            }
            if b1.to_set().contains(x) {
                let p = choose|p: int| 0 <= p < b1.len() && b1[p] == x;
                assert(b.to_set().contains(x));
                let q = choose|q: int| 0 <= q < a.len() && a[q] == x;
                if q == 0 {
                    lemma_key_lt_strict(b[0], b[0], b[0]);
                    assert(key_lt(b[0], b[p + 1]));
                }
                assert(a1[q - 1] == x);
            }
        }
        assert(a1.to_set() =~= b1.to_set());
        law_sorted_by_set(a1, b1);
        assert(a =~= seq![a[0]] + a1);
        assert(b =~= seq![b[0]] + b1);
    }
}


/// Recording a warning twice leaves the sink as recording it once: the
/// views `push` promises after one and after two pushes coincide.
pub proof fn law_push_idempotent(before: Seq<WarningKey>, once: Seq<WarningKey>, twice: Seq<WarningKey>, k: WarningKey)
    requires
        keys_sorted(once),
        keys_sorted(twice),
        once.to_set() == before.to_set().insert(k),
        twice.to_set() == once.to_set().insert(k),
    ensures
        twice == once,
{
    assert(once.to_set().insert(k) =~= once.to_set());
    law_sorted_by_set(twice, once);
}

} // verus!
