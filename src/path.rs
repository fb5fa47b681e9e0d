//! Breadcrumb abbreviation of filesystem paths.
use vstd::prelude::*;
use crate::text::{chars_of, string_of, push_all, split_char, join_with, lemma_split_char_nonempty};

verus! {

/// Whether a piece of a `/`-separated path names an entry: not empty, and
/// neither the current-directory nor the parent-directory marker.
pub open spec fn is_normal_component(c: Seq<char>) -> bool {
    c.len() > 0 && c != seq!['.'] && c != seq!['.', '.']
}

/// The pieces of `segs` that name entries, in order.
pub open spec fn keep_normal(segs: Seq<Seq<char>>) -> Seq<Seq<char>>
    decreases segs.len(),
{
    if segs.len() == 0 {
        segs
    } else if is_normal_component(segs.last()) {
        keep_normal(segs.drop_last()).push(segs.last())
    } else {
        keep_normal(segs.drop_last())
    }
}

/// The named components of a path, the root marker and `.`/`..` left out.
pub open spec fn path_components(p: Seq<char>) -> Seq<Seq<char>> {
    keep_normal(split_char(p, '/'))
}

/// One component as it appears in the breadcrumb: the last one whole, a hidden
/// one as the dot and its next character, any other as its first character.
pub open spec fn abbreviate_component(c: Seq<char>, is_last: bool) -> Seq<char> {
    if is_last {
        c
    } else if c.len() == 0 {
        seq!['?']
    } else if c[0] == '.' {
        if c.len() > 1 { seq!['.', c[1]] } else { c }
    } else {
        seq![c[0]]
    }
}

pub open spec fn abbreviated_components(parts: Seq<Seq<char>>) -> Seq<Seq<char>> {
    Seq::new(parts.len(), |i: int| abbreviate_component(parts[i], i == parts.len() - 1))
}

/// The breadcrumb form of path `p`.
pub open spec fn abbreviated(p: Seq<char>) -> Seq<char> {
    let parts = path_components(p);
    let is_abs = p.len() > 0 && p[0] == '/';
    if p.len() == 0 {
        Seq::<char>::empty()
    } else if parts.len() == 0 {
        if is_abs { seq!['/'] } else { Seq::<char>::empty() }
    } else if is_abs {
        seq!['/'] + join_with(abbreviated_components(parts), seq!['/'])
    } else {
        join_with(abbreviated_components(parts), seq!['/'])
    }
}

fn is_normal(c: &Vec<char>) -> (r: bool)
    ensures
        r == is_normal_component(c@),
{
    if c.len() == 0 {
        return false;
    }
    if c.len() == 1 && c[0] == '.' {
        assert(c@ =~= seq!['.']);
        return false;
    }
    if c.len() == 2 && c[0] == '.' && c[1] == '.' {
        assert(c@ =~= seq!['.', '.']);
        return false;
    }
    true
}

fn abbreviate_one(c: &Vec<char>, is_last: bool) -> (r: Vec<char>)
    ensures
        r@ == abbreviate_component(c@, is_last),
{
    if is_last {
        c.clone()
    } else if c.len() == 0 {
        vec!['?']
    } else if c[0] == '.' {
        if c.len() > 1 {
            vec!['.', c[1]]
        } else {
            c.clone()
        }
    } else {
        vec![c[0]]
    }
}

/// Splits `p` at `/` and keeps the named components.
fn components_of(p: &Vec<char>) -> (r: Vec<Vec<char>>)
    ensures
        r@.len() == path_components(p@).len(),
        forall|i: int| 0 <= i < r@.len() ==> #[trigger] r@[i]@ == path_components(p@)[i],
{
    let mut parts: Vec<Vec<char>> = Vec::new();
    let mut cur: Vec<char> = Vec::new();
    let ghost mut segs: Seq<Seq<char>> = Seq::empty();
    let mut i: usize = 0;
    while i < p.len()
        invariant
            i <= p@.len(),
            split_char(p@.subrange(0, i as int), '/') == segs.push(cur@),
            parts@.len() == keep_normal(segs).len(),
            forall|j: int| 0 <= j < parts@.len() ==> #[trigger] parts@[j]@ == keep_normal(segs)[j],
        decreases p@.len() - i,
    {
        let ch = p[i];
        let ghost pre = p@.subrange(0, i as int);
        assert(p@.subrange(0, i + 1).drop_last() =~= pre);
        proof { lemma_split_char_nonempty(pre, '/'); }
        if ch == '/' {
            let ghost old_segs = segs;
            if is_normal(&cur) {
                parts.push(cur);
            }
            proof {
                segs = segs.push(cur@);
                assert(segs.drop_last() =~= old_segs);
            }
            cur = Vec::new();
            assert(split_char(p@.subrange(0, i + 1), '/') =~= segs.push(cur@));
        } else {
            cur.push(ch);
            assert(split_char(p@.subrange(0, i + 1), '/') =~= segs.push(cur@));
        }
        i = i + 1;
    }
    assert(p@.subrange(0, p@.len() as int) =~= p@);
    let ghost old_segs = segs;
    if is_normal(&cur) {
        parts.push(cur);
    }
    proof {
        segs = segs.push(cur@);
        assert(segs.drop_last() =~= old_segs);
        assert(segs =~= split_char(p@, '/'));
    }
    parts
}

/// Compresses a path into breadcrumb form: every component but the last is
/// cut to its first character (a hidden one keeps its dot and next
/// character), and a leading `/` is kept.
pub fn abbreviate_path(path: &str) -> (r: String)
    ensures
        r@ == abbreviated(path@),
{
    let p = chars_of(path);
    if p.len() == 0 {
        return string_of(&p);
    }
    let is_abs = p[0] == '/';
    let parts = components_of(&p);
    let ghost gparts = path_components(p@);
    let mut out: Vec<char> = Vec::new();
    if is_abs {
        out.push('/');
    }
    let ghost prefix = out@;
    if parts.len() == 0 {
        return string_of(&out);
    }
    let ghost abbr = abbreviated_components(gparts);
    let n = parts.len();
    let mut i: usize = 0;
    while i < n
        invariant
            n == parts@.len(),
            n == gparts.len(),
            n > 0,
            i <= n,
            abbr == abbreviated_components(gparts),
            forall|j: int| 0 <= j < n ==> #[trigger] parts@[j]@ == gparts[j],
            out@ == prefix + join_with(abbr.subrange(0, i as int), seq!['/']),
        decreases n - i,
    {
        let a = abbreviate_one(&parts[i], i == n - 1);
        assert(a@ == abbr[i as int]);
        let ghost before = out@;
        if i > 0 {
            out.push('/');
        }
        push_all(&mut out, &a);
        let ghost sub = abbr.subrange(0, i + 1);
        assert(sub.drop_last() =~= abbr.subrange(0, i as int));
        assert(out@ =~= prefix + join_with(sub, seq!['/']));
        i = i + 1;
    }
    assert(abbr.subrange(0, n as int) =~= abbr);
    if is_abs {
        assert(prefix =~= seq!['/']);
    } else {
        assert(prefix =~= Seq::<char>::empty());
        assert(out@ =~= join_with(abbr, seq!['/']));
    }
    string_of(&out)
}

proof fn lemma_split_without_separator(s: Seq<char>, c: char)
    requires
        forall|i: int| 0 <= i < s.len() ==> s[i] != c,
    ensures
        split_char(s, c) == seq![s],
        split_char(seq![c] + s, c) == seq![Seq::<char>::empty(), s],
    decreases s.len(),
{
    if s.len() > 0 {
        lemma_split_without_separator(s.drop_last(), c);
        assert((seq![c] + s).drop_last() =~= seq![c] + s.drop_last());
        assert(s.drop_last().push(s.last()) =~= s);
        assert(split_char(s, c) =~= seq![s]);
        assert(split_char(seq![c] + s, c) =~= seq![Seq::<char>::empty(), s]);
    } else {
        assert(seq![c] + s =~= seq![c]);
        assert(seq![c].drop_last() =~= Seq::<char>::empty());
        assert(s =~= Seq::<char>::empty());
        assert(split_char(Seq::<char>::empty(), c) == seq![Seq::<char>::empty()]);
        assert(seq![c].last() == c);
        assert(split_char(seq![c], c) =~= seq![Seq::<char>::empty(), s]);
    }
}

/// A path of one named component is already in breadcrumb form, with or
/// without a leading `/`.
pub proof fn lemma_single_component_unchanged(name: Seq<char>)
    requires
        is_normal_component(name),
        forall|i: int| 0 <= i < name.len() ==> name[i] != '/',
    ensures
        abbreviated(name) == name,
        abbreviated(seq!['/'] + name) == seq!['/'] + name,
{
    lemma_split_without_separator(name, '/');
    let one = seq![name];
    assert(one.drop_last() =~= Seq::<Seq<char>>::empty());
    assert(keep_normal(Seq::<Seq<char>>::empty()) == Seq::<Seq<char>>::empty());
    assert(one.last() == name);
    assert(keep_normal(one) =~= Seq::<Seq<char>>::empty().push(name));
    let two = seq![Seq::<char>::empty(), name];
    assert(two.drop_last() =~= seq![Seq::<char>::empty()]);
    assert(seq![Seq::<char>::empty()].drop_last() =~= Seq::<Seq<char>>::empty());
    assert(two.last() == name);
    assert(!is_normal_component(Seq::<char>::empty()));
    assert(keep_normal(seq![Seq::<char>::empty()]) =~= Seq::<Seq<char>>::empty());
    assert(keep_normal(two) =~= Seq::<Seq<char>>::empty().push(name));
    assert(abbreviated_components(one) =~= one);
    assert((seq!['/'] + name)[0] == '/');
}

} // verus!
