use vstd::prelude::*;
use vstd::std_specs::iter::IteratorSpec;

verus! {

// ---------------------------------------------------------------------
// Characters
// ---------------------------------------------------------------------

/// The characters of `s`, one by one.
pub fn chars_of(s: &str) -> (v: Vec<char>)
    ensures
        v@ == s@,
{
    broadcast use vstd::string::group_string_axioms;

    let mut v: Vec<char> = Vec::new();
    for c in it: s.chars()
        invariant
            it.seq() == s@,
            v@ == it.seq().take(it.index() as int),
    {
        v.push(c);
    }
    v
}

/// Whether `c` has the Unicode `White_Space` property (the whitespace that
/// `str::trim` removes).
pub open spec fn is_white_space(c: char) -> bool {
    let u = c as u32;
    ||| 0x9 <= u <= 0xd
    ||| u == 0x20
    ||| u == 0x85
    ||| u == 0xa0
    ||| u == 0x1680
    ||| 0x2000 <= u <= 0x200a
    ||| u == 0x2028
    ||| u == 0x2029
    ||| u == 0x202f
    ||| u == 0x205f
    ||| u == 0x3000
}

/// Whether `c` is whitespace, as `char::is_whitespace` says.
pub fn white_space(c: char) -> (b: bool)
    ensures
        b == is_white_space(c),
{
    let u: u32 = c as u32;
    (0x9 <= u && u <= 0xd) || u == 0x20 || u == 0x85 || u == 0xa0 || u == 0x1680 || (0x2000 <= u
        && u <= 0x200a) || u == 0x2028 || u == 0x2029 || u == 0x202f || u == 0x205f || u == 0x3000
}

// ---------------------------------------------------------------------
// Trimming
// ---------------------------------------------------------------------

/// `s` without its leading whitespace.
pub open spec fn trim_start(s: Seq<char>) -> Seq<char>
    decreases s.len(),
{
    if s.len() > 0 && is_white_space(s[0]) {
        trim_start(s.drop_first())
    } else {
        s
    }
}

/// `s` without its trailing whitespace.
pub open spec fn trim_end(s: Seq<char>) -> Seq<char>
    decreases s.len(),
{
    if s.len() > 0 && is_white_space(s.last()) {
        trim_end(s.drop_last())
    } else {
        s
    }
}

/// `s` without its leading and trailing whitespace.
pub open spec fn trim(s: Seq<char>) -> Seq<char> {
    trim_end(trim_start(s))
}

proof fn lemma_trim_start_skip(s: Seq<char>, i: int)
    requires
        0 <= i <= s.len(),
        forall|j: int| 0 <= j < i ==> is_white_space(#[trigger] s[j]),
    ensures
        trim_start(s) == trim_start(s.skip(i)),
    decreases i,
{
    if i == 0 {
        assert(s.skip(0) =~= s);
    } else {
        assert(is_white_space(s[0]));
        let t = s.drop_first();
        assert forall|j: int| 0 <= j < i - 1 implies is_white_space(#[trigger] t[j]) by {
            assert(t[j] == s[j + 1]);
        }
        lemma_trim_start_skip(t, i - 1);
        assert(t.skip(i - 1) =~= s.skip(i));
    }
}

proof fn lemma_trim_end_take(s: Seq<char>, k: int)
    requires
        0 <= k <= s.len(),
        forall|j: int| k <= j < s.len() ==> is_white_space(#[trigger] s[j]),
    ensures
        trim_end(s) == trim_end(s.take(k)),
    decreases s.len() - k,
{
    if k == s.len() {
        assert(s.take(k) =~= s);
    } else {
        assert(is_white_space(s.last()));
        let t = s.drop_last();
        assert forall|j: int| k <= j < t.len() implies is_white_space(#[trigger] t[j]) by {
            assert(t[j] == s[j]);
        }
        lemma_trim_end_take(t, k);
        assert(t.take(k) =~= s.take(k));
    }
}

/// The bounds of `trim(v)` within `v`.
fn trim_bounds(v: &Vec<char>) -> (r: (usize, usize))
    ensures
        r.0 <= r.1 <= v.len(),
        trim(v@) == v@.subrange(r.0 as int, r.1 as int),
{
    let n: usize = v.len();
    let mut lo: usize = 0;
    while lo < n && white_space(v[lo])
        invariant
            n == v.len(),
            lo <= n,
            forall|j: int| 0 <= j < lo ==> is_white_space(#[trigger] v@[j]),
        decreases n - lo,
    {
        lo = lo + 1;
    }
    proof {
        lemma_trim_start_skip(v@, lo as int);
    }
    let ghost t = v@.skip(lo as int);
    assert(trim_start(v@) == t);
    let mut hi: usize = n;
    while hi > lo && white_space(v[hi - 1])
        invariant
            n == v.len(),
            lo <= hi <= n,
            t == v@.skip(lo as int),
            forall|j: int| hi <= j < n ==> is_white_space(#[trigger] v@[j]),
        decreases hi,
    {
        hi = hi - 1;
    }
    proof {
        assert forall|j: int| hi - lo <= j < t.len() implies is_white_space(#[trigger] t[j]) by {
            assert(t[j] == v@[j + lo]);
        }
        lemma_trim_end_take(t, hi - lo);
        assert(t.take(hi - lo) =~= v@.subrange(lo as int, hi as int));
    }
    (lo, hi)
}

/// `s` without its leading and trailing whitespace, as `str::trim` gives it.
pub fn trimmed(s: &str) -> (t: &str)
    ensures
        t@ == trim(s@),
{
    let v = chars_of(s);
    let (lo, hi) = trim_bounds(&v);
    s.substring_char(lo, hi)
}


// ---------------------------------------------------------------------
// Splitting on single spaces
// ---------------------------------------------------------------------

/// The pieces of `s` between its space characters, as `str::split(' ')`
/// gives them: two adjacent spaces delimit an empty piece, and there is one
/// piece more than there are spaces.
pub open spec fn split_spaces(s: Seq<char>) -> Seq<Seq<char>>
    decreases s.len(),
{
    if s.len() == 0 {
        seq![Seq::<char>::empty()]
    } else {
        let rest = split_spaces(s.drop_last());
        if s.last() == ' ' {
            rest.push(Seq::<char>::empty())
        } else {
            rest.update(rest.len() - 1, rest.last().push(s.last()))
        }
    }
}

proof fn lemma_split_spaces_nonempty(s: Seq<char>)
    ensures
        split_spaces(s).len() >= 1,
    decreases s.len(),
{
    if s.len() > 0 {
        lemma_split_spaces_nonempty(s.drop_last());
    }
}

/// The pieces of the whitespace-trimmed `s` between its space characters.
pub fn trimmed_pieces(s: &str) -> (pieces: Vec<String>)
    ensures
        pieces.deep_view() == split_spaces(trim(s@)),
{
    let v = chars_of(s);
    let (lo, hi) = trim_bounds(&v);
    let ghost t = v@.subrange(lo as int, hi as int);
    let mut pieces: Vec<String> = Vec::new();
    let mut start: usize = lo;
    let mut i: usize = lo;
    assert(split_spaces(t.take(0)) =~~= pieces.deep_view().push(
        v@.subrange(start as int, i as int),
    ));
    while i < hi
        invariant
            v@ == s@,
            lo <= start <= i <= hi <= v.len(),
            t == v@.subrange(lo as int, hi as int),
            split_spaces(t.take(i - lo)) =~~= pieces.deep_view().push(
                v@.subrange(start as int, i as int),
            ),
        decreases hi - i,
    {
        let ghost before = pieces.deep_view();
        proof {
            assert(t.take(i + 1 - lo).drop_last() =~= t.take(i - lo));
            assert(t.take(i + 1 - lo).last() == v@[i as int]);
            lemma_split_spaces_nonempty(t.take(i - lo));
        }
        if v[i] == ' ' {
            let piece = s.substring_char(start, i).to_owned();
            pieces.push(piece);
            assert(pieces.deep_view() =~~= before.push(v@.subrange(start as int, i as int)));
            start = i + 1;
            assert(split_spaces(t.take(i + 1 - lo)) =~~= pieces.deep_view().push(
                v@.subrange(start as int, i + 1),
            ));
        } else {
            assert(v@.subrange(start as int, i + 1) =~= v@.subrange(start as int, i as int).push(
                v@[i as int],
            ));
            assert(split_spaces(t.take(i + 1 - lo)) =~~= pieces.deep_view().push(
                v@.subrange(start as int, i + 1),
            ));
        }
        i = i + 1;
    }
    let ghost before = pieces.deep_view();
    let last = s.substring_char(start, hi).to_owned();
    pieces.push(last);
    assert(pieces.deep_view() =~~= before.push(v@.subrange(start as int, hi as int)));
    assert(t.take(hi - lo) =~= t);
    pieces
}

// ---------------------------------------------------------------------
// Splitting what is joined
// ---------------------------------------------------------------------

/// Whether `s` holds no space character.
pub open spec fn space_free(s: Seq<char>) -> bool {
    forall|i: int| 0 <= i < s.len() ==> #[trigger] s[i] != ' '
}

/// A text without spaces is a single piece.
pub proof fn lemma_split_space_free(s: Seq<char>)
    requires
        space_free(s),
    ensures
        split_spaces(s) == seq![s],
    decreases s.len(),
{
    if s.len() > 0 {
        let r = s.drop_last();
        assert forall|i: int| 0 <= i < r.len() implies #[trigger] r[i] != ' ' by {
            assert(r[i] == s[i]);
        }
        lemma_split_space_free(r);
        assert(s.last() != ' ');
        assert(r.push(s.last()) =~= s);
        assert(split_spaces(s) =~= seq![s]);
    } else {
        assert(s =~= Seq::<char>::empty());
    }
}

/// Joining two texts with a space joins their pieces.
pub proof fn lemma_split_join(x: Seq<char>, y: Seq<char>)
    ensures
        split_spaces(x + seq![' '] + y) == split_spaces(x) + split_spaces(y),
    decreases y.len(),
{
    let xs = x + seq![' '];
    if y.len() == 0 {
        assert(xs + y =~= xs);
        assert(xs.drop_last() =~= x);
        assert(split_spaces(x) + split_spaces(y) =~= split_spaces(x).push(Seq::<char>::empty()));
    } else {
        let r = y.drop_last();
        lemma_split_join(x, r);
        lemma_split_spaces_nonempty(r);
        lemma_split_spaces_nonempty(xs + r);
        assert((xs + y).drop_last() =~= xs + r);
        assert((xs + y).last() == y.last());
        let left = split_spaces(x);
        let right = split_spaces(r);
        if y.last() == ' ' {
            assert(split_spaces(xs + y) =~= (left + right).push(Seq::<char>::empty()));
            assert((left + right).push(Seq::<char>::empty()) =~= left + right.push(
                Seq::<char>::empty(),
            ));
        } else {
            let whole = left + right;
            assert(whole.last() == right.last());
            assert(whole.update(whole.len() - 1, whole.last().push(y.last())) =~= left
                + right.update(right.len() - 1, right.last().push(y.last())));
        }
    }
}

/// A text that starts and ends with something other than whitespace,
/// followed by a line break, trims to the text itself.
pub proof fn lemma_trim_line(s: Seq<char>)
    requires
        s.len() >= 1,
        !is_white_space(s[0]),
        !is_white_space(s.last()),
    ensures
        trim(s.push('\n')) == s,
{
    let l = s.push('\n');
    assert(l[0] == s[0]);
    assert(trim_start(l) == l);
    assert(is_white_space(l.last()));
    assert(l.drop_last() =~= s);
    assert(trim_end(s) == s);
}

} // verus!
