//! Prompt templates: `{{key}}` placeholders and the variables that fill them.
use vstd::prelude::*;

use crate::text::{contains, occurs_at, replace_str, replaced, str_eq};

verus! {

/// Template variables: a list of names, each with its value. Setting a name
/// that is already there replaces its value.
pub struct Vars {
    pairs: Vec<(String, String)>,
}

/// The position of the first pair with the given key, or the length of the
/// list if there is none.
pub open spec fn key_index(pairs: Seq<(Seq<char>, Seq<char>)>, key: Seq<char>) -> int
    decreases pairs.len(),
{
    if pairs.len() == 0 || pairs[0].0 == key {
        0
    } else {
        1 + key_index(pairs.skip(1), key)
    }
}

/// The value that is set for `key`.
pub open spec fn lookup(pairs: Seq<(Seq<char>, Seq<char>)>, key: Seq<char>) -> Option<Seq<char>> {
    let i = key_index(pairs, key);
    if i < pairs.len() {
        Some(pairs[i].1)
    } else {
        None
    }
}

/// The list after `key` has been set to `value`.
pub open spec fn with_entry(
    pairs: Seq<(Seq<char>, Seq<char>)>,
    key: Seq<char>,
    value: Seq<char>,
) -> Seq<(Seq<char>, Seq<char>)> {
    let i = key_index(pairs, key);
    if i < pairs.len() {
        pairs.update(i, (key, value))
    } else {
        pairs.push((key, value))
    }
}

/// The list after the entries of `extra` have been set one by one.
pub open spec fn with_entries(
    pairs: Seq<(Seq<char>, Seq<char>)>,
    extra: Seq<(Seq<char>, Seq<char>)>,
) -> Seq<(Seq<char>, Seq<char>)>
    decreases extra.len(),
{
    if extra.len() == 0 {
        pairs
    } else {
        with_entry(with_entries(pairs, extra.drop_last()), extra.last().0, extra.last().1)
    }
}

/// No two pairs share a key.
pub open spec fn distinct_keys(pairs: Seq<(Seq<char>, Seq<char>)>) -> bool {
    forall|i: int, j: int|
        0 <= i < j < pairs.len() ==> (#[trigger] pairs[i]).0 != (#[trigger] pairs[j]).0
}

/// The placeholder of a variable: its name between double braces.
pub open spec fn placeholder(key: Seq<char>) -> Seq<char> {
    "{{"@ + key + "}}"@
}

/// `template` with the placeholders of the variables replaced by their
/// values, variable by variable in list order.
pub open spec fn rendered(template: Seq<char>, pairs: Seq<(Seq<char>, Seq<char>)>) -> Seq<char>
    decreases pairs.len(),
{
    if pairs.len() == 0 {
        template
    } else {
        replaced(
            rendered(template, pairs.drop_last()),
            placeholder(pairs.last().0),
            pairs.last().1,
        )
    }
}

/// A piece of a template: text, or the slot of a variable.
pub enum Segment {
    Text(Seq<char>),
    Slot(Seq<char>),
}

/// No brace occurs in `s`.
pub open spec fn brace_free(s: Seq<char>) -> bool {
    forall|i: int| 0 <= i < s.len() ==> #[trigger] s[i] != '{' && s[i] != '}'
}

/// No placeholder begins in `s`: an opening brace is followed by something
/// else than another one.
pub open spec fn opens_nothing(s: Seq<char>) -> bool {
    forall|i: int| 0 <= i < s.len() && #[trigger] s[i] == '{' ==> i + 1 < s.len() && s[i + 1] != '{'
}

pub open spec fn segment_ok(seg: Segment) -> bool {
    match seg {
        Segment::Text(t) => opens_nothing(t),
        Segment::Slot(n) => brace_free(n),
    }
}

pub open spec fn segments_ok(segs: Seq<Segment>) -> bool {
    forall|i: int| 0 <= i < segs.len() ==> segment_ok(#[trigger] segs[i])
}

/// How a piece is written in a template.
pub open spec fn segment_text(seg: Segment) -> Seq<char> {
    match seg {
        Segment::Text(t) => t,
        Segment::Slot(n) => placeholder(n),
    }
}

/// The template that is written as the given pieces, one after the other.
pub open spec fn joined(segs: Seq<Segment>) -> Seq<char>
    decreases segs.len(),
{
    if segs.len() == 0 {
        Seq::empty()
    } else {
        segment_text(segs[0]) + joined(segs.skip(1))
    }
}

/// A piece after the variables have been filled in: the slot of a known
/// variable becomes its value, everything else stays.
pub open spec fn filled_segment(seg: Segment, pairs: Seq<(Seq<char>, Seq<char>)>) -> Segment {
    match seg {
        Segment::Text(t) => seg,
        Segment::Slot(n) => match lookup(pairs, n) {
            Some(v) => Segment::Text(v),
            None => seg,
        },
    }
}

pub open spec fn filled(segs: Seq<Segment>, pairs: Seq<(Seq<char>, Seq<char>)>) -> Seq<Segment> {
    segs.map_values(|seg: Segment| filled_segment(seg, pairs))
}

/// The names are free of braces, and no placeholder begins in a value.
pub open spec fn pairs_ok(pairs: Seq<(Seq<char>, Seq<char>)>) -> bool {
    forall|i: int|
        0 <= i < pairs.len() ==> brace_free((#[trigger] pairs[i]).0) && opens_nothing(pairs[i].1)
}

impl View for Vars {
    type V = Seq<(Seq<char>, Seq<char>)>;

    closed spec fn view(&self) -> Seq<(Seq<char>, Seq<char>)> {
        self.pairs@.map_values(|p: (String, String)| (p.0@, p.1@))
    }
}

impl Vars {
    /// No variables.
    pub fn new() -> (vars: Vars)
        ensures
            vars@ == Seq::<(Seq<char>, Seq<char>)>::empty(),
    {
        let vars = Vars { pairs: Vec::new() };
        assert(vars@ =~= Seq::<(Seq<char>, Seq<char>)>::empty());
        vars
    }

    fn index_of(&self, key: &str) -> (i: usize)
        ensures
            i == key_index(self@, key@),
            i <= self@.len(),
            self@.len() == self.pairs@.len(),
    {
        let mut i: usize = 0;
        while i < self.pairs.len() && !str_eq(self.pairs[i].0.as_str(), key)
            invariant
                i <= self.pairs.len(),
                forall|j: int| 0 <= j < i ==> (#[trigger] self@[j]).0 != key@,
            decreases self.pairs.len() - i,
        {
            assert(self@[i as int].0 == self.pairs@[i as int].0@);
            i += 1;
        }
        proof {
            if i < self.pairs.len() {
                assert(self@[i as int].0 == self.pairs@[i as int].0@);
            }
            lemma_key_index_unique(self@, key@, i as int);
        }
        i
    }

    /// Sets a variable.
    pub fn insert(&mut self, key: &str, value: String)
        ensures
            final(self)@ == with_entry(old(self)@, key@, value@),
    {
        let i = self.index_of(key);
        if i < self.pairs.len() {
            self.pairs.set(i, (key.to_owned(), value));
        } else {
            self.pairs.push((key.to_owned(), value));
        }
        assert(self@ =~= with_entry(old(self)@, key@, value@));
    }

    /// The value of a variable.
    pub fn get(&self, key: &str) -> (value: Option<&String>)
        ensures
            match value {
                Some(v) => lookup(self@, key@) == Some(v@),
                None => lookup(self@, key@) is None,
            },
    {
        let i = self.index_of(key);
        if i < self.pairs.len() {
            Some(&self.pairs[i].1)
        } else {
            None
        }
    }

    /// Sets all variables of `extra`, in their order.
    pub fn extend(&mut self, extra: &Vars)
        ensures
            final(self)@ == with_entries(old(self)@, extra@),
    {
        let mut i: usize = 0;
        assert(extra@.take(0) =~= Seq::<(Seq<char>, Seq<char>)>::empty());
        while i < extra.pairs.len()
            invariant
                i <= extra.pairs.len(),
                self@ == with_entries(old(self)@, extra@.take(i as int)),
            decreases extra.pairs.len() - i,
        {
            self.insert(extra.pairs[i].0.as_str(), extra.pairs[i].1.clone());
            i += 1;
            assert(extra@.take(i as int).drop_last() =~= extra@.take(i - 1));
        }
        assert(extra@.take(i as int) =~= extra@);
    }

    /// The number of variables.
    pub fn len(&self) -> (n: usize)
        ensures
            n == self@.len(),
    {
        self.pairs.len()
    }

    /// The name and the value at a position of the list.
    pub fn entry(&self, i: usize) -> (pair: (&String, &String))
        requires
            i < self@.len(),
        ensures
            pair.0@ == self@[i as int].0,
            pair.1@ == self@[i as int].1,
    {
        (&self.pairs[i].0, &self.pairs[i].1)
    }
}

impl Clone for Vars {
    fn clone(&self) -> (copy: Vars)
        ensures
            copy@ == self@,
    {
        let mut pairs: Vec<(String, String)> = Vec::new();
        let mut i: usize = 0;
        while i < self.pairs.len()
            invariant
                i <= self.pairs.len(),
                pairs@ == self.pairs@.take(i as int),
            decreases self.pairs.len() - i,
        {
            pairs.push((self.pairs[i].0.clone(), self.pairs[i].1.clone()));
            i += 1;
        }
        assert(pairs@ =~= self.pairs@);
        Vars { pairs }
    }
}

/// Renders a prompt template by substituting `{{key}}` placeholders.
/// Unknown placeholders are left as they are.
pub fn render(template: &str, vars: &Vars) -> (out: String)
    ensures
        out@ == rendered(template@, vars@),
{
    let mut out = template.to_owned();
    let mut i: usize = 0;
    while i < vars.len()
        invariant
            i <= vars@.len(),
            out@ == rendered(template@, vars@.take(i as int)),
        decreases vars@.len() - i,
    {
        let (key, value) = vars.entry(i);
        let mut slot = "{{".to_string();
        slot.append(key.as_str());
        slot.append("}}");
        proof {
            reveal_strlit("{{");
            assert(vars@.take(i + 1).drop_last() =~= vars@.take(i as int));
        }
        out = replace_str(out.as_str(), slot.as_str(), value.as_str());
        i += 1;
    }
    assert(vars@.take(i as int) =~= vars@);
    out
}

// ---------------------------------------------------------------------------
// Laws
// ---------------------------------------------------------------------------

proof fn lemma_key_index_bounds(pairs: Seq<(Seq<char>, Seq<char>)>, key: Seq<char>)
    ensures
        0 <= key_index(pairs, key) <= pairs.len(),
        key_index(pairs, key) < pairs.len() ==> pairs[key_index(pairs, key)].0 == key,
        forall|j: int| 0 <= j < key_index(pairs, key) ==> (#[trigger] pairs[j]).0 != key,
    decreases pairs.len(),
{
    if pairs.len() > 0 && pairs[0].0 != key {
        let rest = pairs.skip(1);
        lemma_key_index_bounds(rest, key);
        assert forall|j: int| 0 <= j < key_index(pairs, key) implies (#[trigger] pairs[j]).0
            != key by {
            if j > 0 {
                assert(rest[j - 1] == pairs[j]);
            }
        }
    }
}

proof fn lemma_key_index_unique(pairs: Seq<(Seq<char>, Seq<char>)>, key: Seq<char>, i: int)
    requires
        0 <= i <= pairs.len(),
        i < pairs.len() ==> pairs[i].0 == key,
        forall|j: int| 0 <= j < i ==> (#[trigger] pairs[j]).0 != key,
    ensures
        key_index(pairs, key) == i,
{
    lemma_key_index_bounds(pairs, key);
    let k = key_index(pairs, key);
    if k < i {
        assert(pairs[k].0 != key);
    }
}

/// A name that is not there yet is added at the end.
pub proof fn lemma_new_entry(
    pairs: Seq<(Seq<char>, Seq<char>)>,
    key: Seq<char>,
    value: Seq<char>,
)
    requires
        forall|i: int| 0 <= i < pairs.len() ==> (#[trigger] pairs[i]).0 != key,
    ensures
        with_entry(pairs, key, value) == pairs.push((key, value)),
{
    lemma_key_index_unique(pairs, key, pairs.len() as int);
}

/// A variable that was set is found with its value, and setting it leaves
/// all other variables as they were.
pub proof fn law_set_then_get(
    pairs: Seq<(Seq<char>, Seq<char>)>,
    key: Seq<char>,
    value: Seq<char>,
    other: Seq<char>,
)
    ensures
        lookup(with_entry(pairs, key, value), other) == (if other == key {
            Some(value)
        } else {
            lookup(pairs, other)
        }),
{
    let after = with_entry(pairs, key, value);
    let i = key_index(pairs, key);
    let k = key_index(pairs, other);
    lemma_key_index_bounds(pairs, key);
    lemma_key_index_bounds(pairs, other);
    if other == key {
        lemma_key_index_unique(after, other, i);
    } else {
        assert forall|j: int| 0 <= j < k implies (#[trigger] after[j]).0 != other by {
            assert(pairs[j].0 != other);
        }
        if k < pairs.len() {
            lemma_key_index_unique(after, other, k);
        } else {
            lemma_key_index_unique(after, other, after.len() as int);
        }
    }
}

/// The value that is found for `key` is the one of its first entry; there is
/// none exactly if it has no entry.
pub proof fn lemma_lookup_at(pairs: Seq<(Seq<char>, Seq<char>)>, key: Seq<char>)
    ensures
        lookup(pairs, key) is None <==> forall|i: int|
            0 <= i < pairs.len() ==> (#[trigger] pairs[i]).0 != key,
        distinct_keys(pairs) ==> forall|i: int|
            0 <= i < pairs.len() && (#[trigger] pairs[i]).0 == key ==> lookup(pairs, key) == Some(
                pairs[i].1,
            ),
        lookup(pairs, key) is Some ==> exists|i: int|
            0 <= i < pairs.len() && (#[trigger] pairs[i]).0 == key && lookup(pairs, key) == Some(
                pairs[i].1,
            ),
{
    lemma_key_index_bounds(pairs, key);
}

/// What is found among variables after others have been added to them: the
/// value that was added, if one was, and otherwise what was there before.
pub proof fn lemma_lookup_among(
    pairs: Seq<(Seq<char>, Seq<char>)>,
    extra: Seq<(Seq<char>, Seq<char>)>,
    key: Seq<char>,
)
    requires
        distinct_keys(extra),
    ensures
        lookup(extra, key) is Some ==> lookup(with_entries(pairs, extra), key) == lookup(
            extra,
            key,
        ),
        lookup(extra, key) is None ==> lookup(with_entries(pairs, extra), key) == lookup(
            pairs,
            key,
        ),
    decreases extra.len(),
{
    lemma_lookup_at(extra, key);
    if extra.len() > 0 {
        let front = extra.drop_last();
        let last = extra.last();
        assert forall|i: int, j: int| 0 <= i < j < front.len() implies (#[trigger] front[i]).0 != (
        #[trigger] front[j]).0 by {
            assert(extra[i].0 != extra[j].0);
        }
        lemma_lookup_among(pairs, front, key);
        lemma_lookup_at(front, key);
        law_set_then_get(with_entries(pairs, front), last.0, last.1, key);
        if last.0 == key {
            assert(extra[extra.len() - 1].0 == key);
        } else if lookup(extra, key) is Some {
            let i = choose|i: int| 0 <= i < extra.len() && (#[trigger] extra[i]).0 == key;
            assert(front[i].0 == key);
            assert(extra[i] == front[i]);
        } else {
            assert forall|i: int| 0 <= i < front.len() implies (#[trigger] front[i]).0 != key by {
                assert(extra[i].0 != key);
            }
        }
    }
}

/// Setting a variable never makes a name occur twice.
pub proof fn law_set_keeps_keys_distinct(
    pairs: Seq<(Seq<char>, Seq<char>)>,
    key: Seq<char>,
    value: Seq<char>,
)
    requires
        distinct_keys(pairs),
    ensures
        distinct_keys(with_entry(pairs, key, value)),
{
    lemma_key_index_bounds(pairs, key);
}

proof fn lemma_replaced_skips(s: Seq<char>, pat: Seq<char>, with: Seq<char>, m: int)
    requires
        0 <= m <= s.len(),
        pat.len() > 0,
        forall|j: int| 0 <= j < m ==> !occurs_at(s, pat, j),
    ensures
        replaced(s, pat, with) == s.take(m) + replaced(s.skip(m), pat, with),
    decreases m,
{
    if m == 0 {
        assert(s.skip(0) =~= s);
        assert(s.take(0) + replaced(s, pat, with) =~= replaced(s, pat, with));
    } else {
        let rest = s.skip(1);
        assert(!occurs_at(s, pat, 0));
        assert forall|j: int| 0 <= j < m - 1 implies !occurs_at(rest, pat, j) by {
            assert(!occurs_at(s, pat, j + 1));
            if j + pat.len() <= rest.len() {
                assert(rest.subrange(j, j + pat.len()) =~= s.subrange(j + 1, j + 1 + pat.len()));
            }
        }
        lemma_replaced_skips(rest, pat, with, m - 1);
        assert(rest.skip(m - 1) =~= s.skip(m));
        assert(seq![s[0]] + (rest.take(m - 1) + replaced(s.skip(m), pat, with)) =~= s.take(m)
            + replaced(s.skip(m), pat, with));
    }
}

proof fn lemma_placeholder_shape(key: Seq<char>)
    ensures
        placeholder(key).len() == key.len() + 4,
        placeholder(key)[0] == '{',
        placeholder(key)[1] == '{',
        placeholder(key)[key.len() as int + 2] == '}',
        placeholder(key)[key.len() as int + 3] == '}',
        forall|i: int| 0 <= i < key.len() ==> placeholder(key)[i + 2] == #[trigger] key[i],
{
    reveal_strlit("{{");
    reveal_strlit("}}");
}

proof fn lemma_fill_text(t: Seq<char>, rest: Seq<char>, key: Seq<char>, value: Seq<char>)
    requires
        opens_nothing(t),
    ensures
        replaced(t + rest, placeholder(key), value) == t + replaced(rest, placeholder(key), value),
{
    let s = t + rest;
    let pat = placeholder(key);
    lemma_placeholder_shape(key);
    assert forall|j: int| 0 <= j < t.len() implies !occurs_at(s, pat, j) by {
        if occurs_at(s, pat, j) {
            let cut = s.subrange(j, j + pat.len());
            assert(cut[0] == pat[0] && cut[1] == pat[1]);
            assert(s[j] == t[j]);
            assert(t[j] == '{');
            assert(s[j + 1] == t[j + 1]);
        }
    }
    lemma_replaced_skips(s, pat, value, t.len() as int);
    assert(s.take(t.len() as int) =~= t);
    assert(s.skip(t.len() as int) =~= rest);
}

proof fn lemma_fill_slot(n: Seq<char>, rest: Seq<char>, key: Seq<char>, value: Seq<char>)
    requires
        brace_free(n),
        brace_free(key),
    ensures
        replaced(placeholder(n) + rest, placeholder(key), value) == (if n == key {
            value
        } else {
            placeholder(n)
        }) + replaced(rest, placeholder(key), value),
{
    let slot = placeholder(n);
    let s = slot + rest;
    let pat = placeholder(key);
    lemma_placeholder_shape(n);
    lemma_placeholder_shape(key);
    if n == key {
        assert(s.subrange(0, pat.len() as int) =~= pat);
        assert(s.skip(pat.len() as int) =~= rest);
    } else {
        assert forall|j: int| 0 <= j < slot.len() implies !occurs_at(s, pat, j) by {
            if occurs_at(s, pat, j) {
                let cut = s.subrange(j, j + pat.len());
                assert(cut[0] == pat[0] && cut[1] == pat[1]);
                assert(s[j] == '{' && s[j + 1] == '{');
                assert(s[j] == slot[j]);
                if j >= 2 && j < n.len() + 2 {
                    assert(slot[j] == n[j - 2]);
                }
                if j == 1 {
                    if n.len() > 0 {
                        assert(slot[2] == n[0]);
                    }
                    assert(s[2] == slot[2]);
                }
                assert(j == 0);
                if key.len() < n.len() {
                    assert(cut[key.len() as int + 2] == pat[key.len() as int + 2]);
                    assert(s[key.len() as int + 2] == slot[key.len() as int + 2]);
                    assert(slot[key.len() as int + 2] == n[key.len() as int]);
                } else if n.len() < key.len() {
                    assert(cut[n.len() as int + 2] == pat[n.len() as int + 2]);
                    assert(s[n.len() as int + 2] == slot[n.len() as int + 2]);
                    assert(pat[n.len() as int + 2] == key[n.len() as int]);
                } else {
                    assert forall|i: int| 0 <= i < n.len() implies n[i] == key[i] by {
                        assert(cut[i + 2] == pat[i + 2]);
                        assert(s[i + 2] == slot[i + 2]);
                        assert(slot[i + 2] == n[i]);
                        assert(pat[i + 2] == key[i]);
                    }
                    assert(n =~= key);
                }
            }
        }
        lemma_replaced_skips(s, pat, value, slot.len() as int);
        assert(s.take(slot.len() as int) =~= slot);
        assert(s.skip(slot.len() as int) =~= rest);
    }
}

proof fn lemma_fill_one(segs: Seq<Segment>, key: Seq<char>, value: Seq<char>)
    requires
        segments_ok(segs),
        brace_free(key),
    ensures
        replaced(joined(segs), placeholder(key), value) == joined(
            filled(segs, seq![(key, value)]),
        ),
    decreases segs.len(),
{
    let one = seq![(key, value)];
    if segs.len() > 0 {
        let rest = segs.skip(1);
        lemma_fill_one(rest, key, value);
        assert(filled(segs, one).skip(1) =~= filled(rest, one));
        assert(filled(segs, one)[0] == filled_segment(segs[0], one));
        assert(segment_ok(segs[0]));
        match segs[0] {
            Segment::Text(t) => {
                lemma_fill_text(t, joined(rest), key, value);
            },
            Segment::Slot(n) => {
                lemma_fill_slot(n, joined(rest), key, value);
                if n == key {
                    lemma_key_index_unique(one, n, 0);
                } else {
                    lemma_key_index_unique(one, n, 1);
                }
            },
        }
    }
}

proof fn lemma_lookup_snoc(pairs: Seq<(Seq<char>, Seq<char>)>, n: Seq<char>)
    requires
        pairs.len() > 0,
    ensures
        lookup(pairs, n) == (match lookup(pairs.drop_last(), n) {
            Some(v) => Some(v),
            None => if pairs.last().0 == n {
                Some(pairs.last().1)
            } else {
                None
            },
        }),
{
    let front = pairs.drop_last();
    lemma_key_index_bounds(front, n);
    let k = key_index(front, n);
    assert forall|j: int| 0 <= j < k implies (#[trigger] pairs[j]).0 != n by {
        assert(front[j] == pairs[j]);
    }
    if k < front.len() {
        lemma_key_index_unique(pairs, n, k);
    } else if pairs.last().0 == n {
        lemma_key_index_unique(pairs, n, k);
    } else {
        assert forall|j: int| 0 <= j < pairs.len() implies (#[trigger] pairs[j]).0 != n by {
            if j < k {
                assert(front[j] == pairs[j]);
            }
        }
        lemma_key_index_unique(pairs, n, pairs.len() as int);
    }
}

/// Rendering is simultaneous substitution: in a template that is written as
/// text and slots, every slot of a known variable becomes its value, and
/// every other slot is left as it is. It therefore does not depend on the
/// order in which the variables are filled in. In the text and in the values,
/// no placeholder begins.
pub proof fn law_render_fills_slots(segs: Seq<Segment>, pairs: Seq<(Seq<char>, Seq<char>)>)
    requires
        segments_ok(segs),
        pairs_ok(pairs),
    ensures
        rendered(joined(segs), pairs) == joined(filled(segs, pairs)),
    decreases pairs.len(),
{
    if pairs.len() == 0 {
        assert(filled(segs, pairs) =~= segs);
    } else {
        let front = pairs.drop_last();
        let key = pairs.last().0;
        let value = pairs.last().1;
        law_render_fills_slots(segs, front);
        let done = filled(segs, front);
        assert(brace_free(key) && opens_nothing(value));
        assert forall|i: int| 0 <= i < done.len() implies segment_ok(#[trigger] done[i]) by {
            assert(segment_ok(segs[i]));
            if let Segment::Slot(n) = segs[i] {
                lemma_key_index_bounds(front, n);
                let k = key_index(front, n);
                if k < front.len() {
                    assert(front[k] == pairs[k]);
                }
            }
        }
        lemma_fill_one(done, key, value);
        let one = seq![(key, value)];
        assert forall|i: int| 0 <= i < segs.len() implies filled(done, one)[i] == filled(
            segs,
            pairs,
        )[i] by {
            match segs[i] {
                Segment::Text(t) => {},
                Segment::Slot(n) => {
                    lemma_lookup_snoc(pairs, n);
                    if n == key {
                        lemma_key_index_unique(one, n, 0);
                    } else {
                        lemma_key_index_unique(one, n, 1);
                    }
                },
            }
        }
        assert(filled(done, one) =~= filled(segs, pairs));
    }
}

/// A template in which no variable's placeholder occurs is rendered as it is.
pub proof fn law_render_keeps_other_text(
    template: Seq<char>,
    pairs: Seq<(Seq<char>, Seq<char>)>,
)
    requires
        forall|i: int|
            0 <= i < pairs.len() ==> !contains(template, placeholder((#[trigger] pairs[i]).0)),
    ensures
        rendered(template, pairs) == template,
    decreases pairs.len(),
{
    if pairs.len() > 0 {
        let front = pairs.drop_last();
        assert forall|i: int| 0 <= i < front.len() implies !contains(
            template,
            placeholder((#[trigger] front[i]).0),
        ) by {
            assert(front[i] == pairs[i]);
        }
        law_render_keeps_other_text(template, front);
        let last = pairs.len() - 1;
        assert(!contains(template, placeholder(pairs[last].0)));
        lemma_placeholder_shape(pairs.last().0);
        lemma_replaced_skips(
            template,
            placeholder(pairs.last().0),
            pairs.last().1,
            template.len() as int,
        );
        let end = template.skip(template.len() as int);
        assert(template.take(template.len() as int) + replaced(
            end,
            placeholder(pairs.last().0),
            pairs.last().1,
        ) =~= template);
    }
}

/// The placeholder of a variable, the name between double braces, is replaced
/// by the value of the variable, and the text around it stays; the placeholder
/// of a name that is not set stays too. In the text around it and in the values
/// no placeholder begins.
pub proof fn law_placeholder_is_filled(
    before: Seq<char>,
    name: Seq<char>,
    after: Seq<char>,
    template: &str,
    vars: Vars,
    out: String,
)
    requires
        call_ensures(render, (template, &vars), out),
        template@ == before + "{{"@ + name + "}}"@ + after,
        opens_nothing(before),
        brace_free(name),
        opens_nothing(after),
        pairs_ok(vars@),
    ensures
        lookup(vars@, name) matches Some(value) ==> out@ == before + value + after,
        lookup(vars@, name) is None ==> out@ == template@,
{
    let segs = seq![Segment::Text(before), Segment::Slot(name), Segment::Text(after)];
    law_render_fills_slots(segs, vars@);
    lemma_three_segments(segs);
    assert(joined(segs) =~= template@);
    let made = filled(segs, vars@);
    lemma_three_segments(made);
    assert(made[0] == segs[0] && made[2] == segs[2]);
    if let Some(value) = lookup(vars@, name) {
        assert(made[1] == Segment::Text(value));
        assert(joined(made) =~= before + value + after);
    } else {
        assert(made =~= segs);
    }
}

proof fn lemma_three_segments(segs: Seq<Segment>)
    requires
        segs.len() == 3,
    ensures
        joined(segs) == segment_text(segs[0]) + (segment_text(segs[1]) + segment_text(segs[2])),
{
    let two = segs.skip(1);
    let one = two.skip(1);
    assert(one.skip(1) =~= Seq::<Segment>::empty());
    assert(joined(one.skip(1)) =~= Seq::<char>::empty());
    assert(joined(one) =~= segment_text(segs[2]));
    assert(joined(two) =~= segment_text(segs[1]) + segment_text(segs[2]));
}

/// A variable that is set has its new value then, and the others keep theirs.
pub proof fn law_variable_is_set(
    vars: &mut Vars,
    key: &str,
    value: String,
    other: &str,
    before: Option<&String>,
    after: Option<&String>,
)
    requires
        call_ensures(Vars::get, (&*old(vars), other), before),
        call_ensures(Vars::insert, (vars, key, value), ()),
        call_ensures(Vars::get, (&*final(vars), other), after),
    ensures
        other@ == key@ ==> after is Some && after->0@ == value@,
        other@ != key@ ==> (after is Some <==> before is Some),
        other@ != key@ && before is Some ==> after->0@ == before->0@,
{
    law_set_then_get(old(vars)@, key@, value@, other@);
}

/// Variables that are added to others win over them, and the others stay.
pub proof fn law_added_variables_win(
    vars: &mut Vars,
    extra: Vars,
    name: &str,
    before: Option<&String>,
    added: Option<&String>,
    after: Option<&String>,
)
    requires
        distinct_keys(extra@),
        call_ensures(Vars::get, (&*old(vars), name), before),
        call_ensures(Vars::get, (&extra, name), added),
        call_ensures(Vars::extend, (vars, &extra), ()),
        call_ensures(Vars::get, (&*final(vars), name), after),
    ensures
        added is Some ==> after is Some && after->0@ == added->0@,
        added is None ==> (after is Some <==> before is Some),
        added is None && before is Some ==> after->0@ == before->0@,
{
    lemma_lookup_among(old(vars)@, extra@, name@);
}

} // verus!
