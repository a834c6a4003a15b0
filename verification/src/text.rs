use vstd::prelude::*;
use vstd::utf8::{encode_utf8, valid_utf8};

verus! {

/// `String::from_utf8`: the text that `bytes` encode in UTF-8. There is one
/// exactly where the bytes are valid UTF-8, and it encodes to those bytes.
#[verifier::external_body]
pub(crate) fn text_of_bytes(bytes: Vec<u8>) -> (text: Option<String>)
    ensures
        text is Some <==> valid_utf8(bytes@),
        text is Some ==> encode_utf8(text.unwrap()@) == bytes@,
{
    String::from_utf8(bytes).ok()
}

/// `String::push`: the string is afterwards what it was with `c` behind it.
pub assume_specification[ String::push ](s: &mut String, c: char)
    ensures
        final(s)@ == old(s)@.push(c),
;

/// Appends `c` to `out`.
pub fn push_char(out: &mut String, c: char)
    ensures
        final(out)@ == old(out)@.push(c),
{
    out.push(c);
}

/// The characters of `s`, in order.
pub fn chars_of(s: &str) -> (out: Vec<char>)
    ensures
        out@ == s@,
{
    let mut out: Vec<char> = Vec::new();
    for c in it: s.chars()
        invariant
            out@ == it.seq().take(it.index() as int),
            it.seq() == s@,
    {
        out.push(c);
    }
    out
}

/// The string made of `chars`, in order.
pub fn string_of(chars: &Vec<char>) -> (s: String)
    ensures
        s@ == chars@,
{
    let mut s = String::new();
    let mut i: usize = 0;
    while i < chars.len()
        invariant
            i <= chars.len(),
            s@ == chars@.take(i as int),
        decreases chars.len() - i,
    {
        s.push(chars[i]);
        i += 1;
    }
    s
}

pub open spec fn is_digit(c: char) -> bool {
    '0' <= c <= '9'
}

/// White space as Unicode defines it (the property `White_Space`).
pub open spec fn is_whitespace(c: char) -> bool {
    let u = c as u32;
    ||| 0x09 <= u <= 0x0D
    ||| u == 0x20
    ||| u == 0x85
    ||| u == 0xA0
    ||| u == 0x1680
    ||| 0x2000 <= u <= 0x200A
    ||| u == 0x2028
    ||| u == 0x2029
    ||| u == 0x202F
    ||| u == 0x205F
    ||| u == 0x3000
}

pub fn whitespace(c: char) -> (b: bool)
    ensures
        b == is_whitespace(c),
{
    let u: u32 = c as u32;
    (0x09 <= u && u <= 0x0D) || u == 0x20 || u == 0x85 || u == 0xA0 || u == 0x1680 || (0x2000 <= u
        && u <= 0x200A) || u == 0x2028 || u == 0x2029 || u == 0x202F || u == 0x205F || u == 0x3000
}

/// `s` without its leading white space.
pub open spec fn trim_start(s: Seq<char>) -> Seq<char>
    decreases s.len(),
{
    if s.len() > 0 && is_whitespace(s[0]) {
        trim_start(s.drop_first())
    } else {
        s
    }
}

/// `s` without its trailing white space.
pub open spec fn trim_end(s: Seq<char>) -> Seq<char>
    decreases s.len(),
{
    if s.len() > 0 && is_whitespace(s.last()) {
        trim_end(s.drop_last())
    } else {
        s
    }
}

/// `s` without leading and trailing white space.
pub open spec fn trim(s: Seq<char>) -> Seq<char> {
    trim_end(trim_start(s))
}

/// The bounds `(a, b)` of what is left of `chars[from..to]` when the white
/// space at both ends is taken away.
pub fn trim_range(chars: &Vec<char>, from: usize, to: usize) -> (r: (usize, usize))
    requires
        from <= to <= chars.len(),
    ensures
        from <= r.0 <= r.1 <= to,
        chars@.subrange(r.0 as int, r.1 as int) == trim(chars@.subrange(from as int, to as int)),
{
    let mut a: usize = from;
    while a < to && whitespace(chars[a])
        invariant
            from <= a <= to <= chars.len(),
            trim_start(chars@.subrange(from as int, to as int)) == trim_start(
                chars@.subrange(a as int, to as int),
            ),
        decreases to - a,
    {
        proof {
            let cur = chars@.subrange(a as int, to as int);
            assert(cur.drop_first() == chars@.subrange(a + 1, to as int));
        }
        a += 1;
    }
    let mut b: usize = to;
    while a < b && whitespace(chars[b - 1])
        invariant
            from <= a <= b <= to <= chars.len(),
            trim_end(chars@.subrange(a as int, to as int)) == trim_end(
                chars@.subrange(a as int, b as int),
            ),
        decreases b - a,
    {
        proof {
            let cur = chars@.subrange(a as int, b as int);
            assert(cur.drop_last() == chars@.subrange(a as int, b - 1));
        }
        b -= 1;
    }
    (a, b)
}

/// The two characters that part the fields of a record.
pub open spec fn is_separator(c: char) -> bool {
    c == ':' || c == ','
}

/// The place of the first separator in `s`, or the length of `s` where it
/// has none.
pub open spec fn first_separator(s: Seq<char>) -> int
    decreases s.len(),
{
    if s.len() == 0 || is_separator(s[0]) {
        0
    } else {
        1 + first_separator(s.drop_first())
    }
}

/// The fields of `s`: what stands before, between and after its separators.
/// A text with `n` separators has `n + 1` fields, some of them possibly empty.
pub open spec fn fields(s: Seq<char>) -> Seq<Seq<char>>
    decreases s.len(),
{
    let i = first_separator(s);
    if 0 <= i < s.len() {
        seq![s.take(i)] + fields(s.skip(i + 1))
    } else {
        seq![s]
    }
}

/// The tokens of `s`: its fields, each without the white space around it.
pub open spec fn tokens(s: Seq<char>) -> Seq<Seq<char>> {
    fields(s).map_values(|f: Seq<char>| trim(f))
}

pub proof fn lemma_first_separator(s: Seq<char>, k: int)
    requires
        0 <= k <= s.len(),
        forall|j: int| 0 <= j < k ==> !is_separator(s[j]),
        k < s.len() ==> is_separator(s[k]),
    ensures
        first_separator(s) == k,
    decreases k,
{
    if k > 0 {
        lemma_first_separator(s.drop_first(), k - 1);
    }
}

/// What each of `rows` holds.
pub open spec fn views_of(rows: Seq<Vec<char>>) -> Seq<Seq<char>> {
    rows.map_values(|row: Vec<char>| row@)
}

/// The tokens of `chars`, each as a vector of characters.
pub fn split_tokens(chars: &Vec<char>) -> (out: Vec<Vec<char>>)
    ensures
        views_of(out@) == tokens(chars@),
{
    let n = chars.len();
    let mut out: Vec<Vec<char>> = Vec::new();
    let mut start: usize = 0;
    let mut i: usize = 0;
    proof {
        assert(chars@.skip(0) == chars@);
        assert(views_of(out@) + tokens(chars@) =~= tokens(chars@));
    }
    while i < n
        invariant
            start <= i <= n == chars.len(),
            forall|j: int| start <= j < i ==> !is_separator(chars@[j]),
            tokens(chars@) == views_of(out@) + tokens(chars@.skip(start as int)),
        decreases n - i,
    {
        let c = chars[i];
        if c == ':' || c == ',' {
            let (a, b) = trim_range(chars, start, i);
            let token = copy_range(chars, a, b);
            proof {
                let rest = chars@.skip(start as int);
                lemma_first_separator(rest, i - start);
                assert(rest.take(i - start) == chars@.subrange(start as int, i as int));
                assert(rest.skip(i - start + 1) == chars@.skip(i + 1));
                let f = |f: Seq<char>| trim(f);
                assert(tokens(rest) == seq![trim(rest.take(i - start))] + tokens(
                    chars@.skip(i + 1),
                )) by {
                    assert((seq![rest.take(i - start)] + fields(chars@.skip(i + 1))).map_values(f)
                        =~= seq![trim(rest.take(i - start))] + fields(
                        chars@.skip(i + 1),
                    ).map_values(f));
                }
                assert(views_of(out@).push(token@) + tokens(chars@.skip(i + 1))
                    =~= views_of(out@) + tokens(rest));
            }
            let ghost before = views_of(out@);
            out.push(token);
            proof {
                assert(views_of(out@) =~= before.push(token@));
            }
            start = i + 1;
        }
        i += 1;
    }
    let (a, b) = trim_range(chars, start, n);
    let token = copy_range(chars, a, b);
    proof {
        let rest = chars@.skip(start as int);
        lemma_first_separator(rest, n - start);
        assert(rest == chars@.subrange(start as int, n as int));
        assert(fields(rest) == seq![rest]);
        assert(tokens(rest) =~= seq![trim(rest)]);
    }
    let ghost before = views_of(out@);
    out.push(token);
    proof {
        assert(views_of(out@) =~= before.push(token@));
    }
    out
}

/// A copy of `chars[from..to]`.
pub fn copy_range(chars: &Vec<char>, from: usize, to: usize) -> (out: Vec<char>)
    requires
        from <= to <= chars.len(),
    ensures
        out@ == chars@.subrange(from as int, to as int),
{
    let mut out: Vec<char> = Vec::new();
    let mut i: usize = from;
    while i < to
        invariant
            from <= i <= to <= chars.len(),
            out@ == chars@.subrange(from as int, i as int),
        decreases to - i,
    {
        out.push(chars[i]);
        i += 1;
    }
    out
}

} // verus!
