use vstd::prelude::*;

verus! {

/// Relies on `String::push`: appends one character at the end.
#[verifier::external_body]
fn push_char(s: &mut String, c: char)
    ensures
        final(s)@ == old(s)@.push(c),
{
    s.push(c)
}

/// The characters of `src[start..end]` as a `String`.
pub fn text_of(src: &Vec<char>, start: usize, end: usize) -> (r: String)
    requires
        start <= end <= src.len(),
    ensures
        r@ == src@.subrange(start as int, end as int),
{
    let mut r = String::new();
    let mut i: usize = start;
    while i < end
        invariant
            start <= i <= end <= src.len(),
            r@ == src@.subrange(start as int, i as int),
        decreases end - i,
    {
        push_char(&mut r, src[i]);
        i += 1;
        assert(r@ =~= src@.subrange(start as int, i as int));
    }
    r
}

/// The characters of `s`, in order.
pub fn chars_of(s: &str) -> (r: Vec<char>)
    ensures
        r@ == s@,
{
    let mut r: Vec<char> = Vec::new();
    for c in it: s.chars()
        invariant
            r@ == it.seq().take(it.index() as int),
    {
        r.push(c);
    }
    r
}

/// Appends the whole of `other` to `s`.
pub fn append_text(s: &mut String, other: &String)
    ensures
        final(s)@ == old(s)@ + other@,
{
    s.append(other.as_str());
}

/// An ASCII decimal digit.
pub open spec fn is_digit(c: char) -> bool {
    '0' <= c && c <= '9'
}

/// Whether `c` is an ASCII decimal digit.
pub fn digit(c: char) -> (r: bool)
    ensures
        r == is_digit(c),
{
    '0' <= c && c <= '9'
}


/// Whether `c` is alphabetic or numeric in the Unicode sense.
pub uninterp spec fn alphanumeric(c: char) -> bool;

/// Relies on `char::is_alphanumeric`: its answer depends on the character alone.
#[verifier::external_body]
pub(crate) fn is_alphanumeric(c: char) -> (r: bool)
    ensures
        r == alphanumeric(c),
{
    c.is_alphanumeric()
}


/// Whether `c` has the Unicode White_Space property.
pub uninterp spec fn whitespace(c: char) -> bool;

/// Relies on `char::is_whitespace`: its answer depends on the character alone.
#[verifier::external_body]
pub(crate) fn is_whitespace(c: char) -> (r: bool)
    ensures
        r == whitespace(c),
{
    c.is_whitespace()
}

/// The first index from `from` on where `sep` occurs in `s`, or -1.
pub open spec fn find(s: Seq<char>, sep: Seq<char>, from: int) -> int
    decreases s.len() + 1 - from,
{
    if from < 0 || from + sep.len() > s.len() {
        -1
    } else if s.subrange(from, from + sep.len()) == sep {
        from
    } else {
        find(s, sep, from + 1)
    }
}

/// What `find` returns lies in the text, at or after `from`.
pub proof fn lemma_find(s: Seq<char>, sep: Seq<char>, from: int)
    requires
        0 <= from,
    ensures
        find(s, sep, from) == -1 || (from <= find(s, sep, from) && find(s, sep, from) + sep.len()
            <= s.len()),
    decreases s.len() + 1 - from,
{
    if from + sep.len() <= s.len() && s.subrange(from, from + sep.len()) != sep {
        lemma_find(s, sep, from + 1);
    }
}

/// The first index from `from` on where `sep` occurs in `s`, if any.
pub fn find_from(s: &Vec<char>, sep: &[char], from: usize) -> (r: Option<usize>)
    requires
        from <= s.len(),
    ensures
        match r {
            Some(i) => i == find(s@, sep@, from as int),
            None => find(s@, sep@, from as int) == -1,
        },
{
    let mut i: usize = from;
    while sep.len() <= s.len() - i
        invariant
            from <= i <= s.len(),
            find(s@, sep@, from as int) == find(s@, sep@, i as int),
        decreases s.len() - i,
    {
        let mut k: usize = 0;
        let mut same = true;
        while k < sep.len()
            invariant
                i + sep.len() <= s.len(),
                k <= sep.len(),
                same == (forall|m: int| 0 <= m < k ==> s@[i + m] == sep@[m]),
            decreases sep.len() - k,
        {
            if s[i + k] != sep[k] {
                same = false;
            }
            k += 1;
        }
        if same {
            assert(s@.subrange(i as int, i + sep.len()) =~= sep@);
            return Some(i);
        }
        assert(s@.subrange(i as int, i + sep.len())[0] == s@[i as int]);
        assert(exists|m: int| 0 <= m < sep.len() && s@[i + m] != sep@[m]);
        assert(s@.subrange(i as int, i + sep.len()) != sep@) by {
            let m = choose|m: int| 0 <= m < sep.len() && s@[i + m] != sep@[m];
            assert(s@.subrange(i as int, i + sep.len())[m] == s@[i + m]);
        }
        i += 1;
    }
    None
}

/// `s` without leading whitespace.
pub open spec fn trim_start(s: Seq<char>) -> Seq<char>
    decreases s.len(),
{
    if s.len() > 0 && whitespace(s[0]) {
        trim_start(s.drop_first())
    } else {
        s
    }
}

/// `s` without trailing whitespace.
pub open spec fn trim_end(s: Seq<char>) -> Seq<char>
    decreases s.len(),
{
    if s.len() > 0 && whitespace(s.last()) {
        trim_end(s.drop_last())
    } else {
        s
    }
}

/// `s` without leading or trailing whitespace.
pub open spec fn trimmed(s: Seq<char>) -> Seq<char> {
    trim_end(trim_start(s))
}

/// `src[start..end]` without leading or trailing whitespace.
pub fn trim_text(src: &Vec<char>, start: usize, end: usize) -> (r: String)
    requires
        start <= end <= src.len(),
    ensures
        r@ == trimmed(src@.subrange(start as int, end as int)),
{
    let mut a: usize = start;
    while a < end && is_whitespace(src[a])
        invariant
            start <= a <= end <= src.len(),
            trim_start(src@.subrange(start as int, end as int)) == trim_start(
                src@.subrange(a as int, end as int),
            ),
        decreases end - a,
    {
        assert(src@.subrange(a as int, end as int).drop_first() =~= src@.subrange(
            a + 1,
            end as int,
        ));
        a += 1;
    }
    let mut b: usize = end;
    while b > a && is_whitespace(src[b - 1])
        invariant
            start <= a <= b <= end <= src.len(),
            trim_end(src@.subrange(a as int, end as int)) == trim_end(src@.subrange(a as int, b as int)),
        decreases b - a,
    {
        assert(src@.subrange(a as int, b as int).drop_last() =~= src@.subrange(
            a as int,
            b - 1,
        ));
        b -= 1;
    }
    text_of(src, a, b)
}


/// A copy of `src[start..end]`.
pub fn copy_range(src: &Vec<char>, start: usize, end: usize) -> (r: Vec<char>)
    requires
        start <= end <= src.len(),
    ensures
        r@ == src@.subrange(start as int, end as int),
{
    let mut r: Vec<char> = Vec::new();
    let mut i: usize = start;
    while i < end
        invariant
            start <= i <= end <= src.len(),
            r@ == src@.subrange(start as int, i as int),
        decreases end - i,
    {
        r.push(src[i]);
        i += 1;
        assert(r@ =~= src@.subrange(start as int, i as int));
    }
    r
}

} // verus!
