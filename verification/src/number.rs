use vstd::prelude::*;
use crate::text::{chars_of, is_digit};

verus! {

/// How many digits `s` starts with.
pub open spec fn digits_run(s: Seq<char>) -> nat
    decreases s.len(),
{
    if s.len() > 0 && is_digit(s[0]) {
        1 + digits_run(s.drop_first())
    } else {
        0
    }
}

pub open spec fn is_sign(c: char) -> bool {
    c == '+' || c == '-'
}

/// `s` without its sign, if it has one.
pub open spec fn unsigned_part(s: Seq<char>) -> Seq<char> {
    if s.len() > 0 && is_sign(s[0]) {
        s.drop_first()
    } else {
        s
    }
}

/// An ASCII capital as its small letter, any other character as it is.
pub open spec fn lower(c: char) -> char {
    if 'A' <= c <= 'Z' {
        ((c as u8 + 32) as u8) as char
    } else {
        c
    }
}

/// `s` is `word`, whatever the case of its letters. `word` is written in
/// small letters.
pub open spec fn is_word(s: Seq<char>, word: Seq<char>) -> bool {
    s.len() == word.len() && forall|i: int| 0 <= i < s.len() ==> lower(#[trigger] s[i]) == word[i]
}

/// The three words that stand for a value that is no finite number.
pub open spec fn is_special(s: Seq<char>) -> bool {
    is_word(s, seq!['i', 'n', 'f']) || is_word(s, seq!['n', 'a', 'n']) || is_word(
        s,
        seq!['i', 'n', 'f', 'i', 'n', 'i', 't', 'y'],
    )
}

/// `s` is nothing, or an exponent: the letter `e`, an optional sign and at
/// least one digit.
pub open spec fn is_exponent(s: Seq<char>) -> bool {
    s.len() == 0 || {
        let d = unsigned_part(s.drop_first());
        (s[0] == 'e' || s[0] == 'E') && d.len() > 0 && digits_run(d) == d.len()
    }
}

/// `s` is a decimal: digits with at most one point among them, at least one
/// digit before or after the point, and an optional exponent.
pub open spec fn is_decimal(s: Seq<char>) -> bool {
    let whole = digits_run(s);
    let rest = s.skip(whole as int);
    if rest.len() > 0 && rest[0] == '.' {
        let fraction = digits_run(rest.drop_first());
        whole + fraction > 0 && is_exponent(rest.skip(1 + fraction as int))
    } else {
        whole > 0 && is_exponent(rest)
    }
}

/// `s` is written as a number: an optional sign, then a decimal or one of
/// the words `inf`, `infinity` and `nan`.
pub open spec fn is_number(s: Seq<char>) -> bool {
    let body = unsigned_part(s);
    is_special(body) || is_decimal(body)
}

pub proof fn lemma_digits_run(s: Seq<char>, k: int)
    requires
        0 <= k <= s.len(),
        forall|j: int| 0 <= j < k ==> is_digit(s[j]),
        k < s.len() ==> !is_digit(s[k]),
    ensures
        digits_run(s) == k,
    decreases k,
{
    if k > 0 {
        lemma_digits_run(s.drop_first(), k - 1);
    }
}

fn small(c: char) -> (r: char)
    ensures
        r == lower(c),
{
    if 'A' <= c && c <= 'Z' {
        let code: u8 = c as u8;
        (code + 32) as char
    } else {
        c
    }
}

/// The end of the digits that start at `from`.
fn skip_digits(chars: &Vec<char>, from: usize) -> (end: usize)
    requires
        from <= chars.len(),
    ensures
        from <= end <= chars.len(),
        end - from == digits_run(chars@.skip(from as int)),
{
    let mut end: usize = from;
    while end < chars.len() && '0' <= chars[end] && chars[end] <= '9'
        invariant
            from <= end <= chars.len(),
            forall|j: int| from <= j < end ==> is_digit(chars@[j]),
        decreases chars.len() - end,
    {
        end += 1;
    }
    proof {
        lemma_digits_run(chars@.skip(from as int), end - from);
    }
    end
}

/// The place after the sign at `from`, if there is one.
fn skip_sign(chars: &Vec<char>, from: usize) -> (next: usize)
    requires
        from <= chars.len(),
    ensures
        from <= next <= chars.len(),
        chars@.skip(next as int) == unsigned_part(chars@.skip(from as int)),
{
    if from < chars.len() && (chars[from] == '+' || chars[from] == '-') {
        proof {
            assert(chars@.skip(from as int).drop_first() == chars@.skip(from + 1));
        }
        from + 1
    } else {
        from
    }
}

fn word_at(chars: &Vec<char>, from: usize, word: &Vec<char>) -> (b: bool)
    requires
        from <= chars.len(),
    ensures
        b == is_word(chars@.skip(from as int), word@),
{
    if chars.len() - from != word.len() {
        return false;
    }
    let mut i: usize = 0;
    while i < word.len()
        invariant
            from <= chars.len(),
            chars.len() - from == word.len(),
            i <= word.len(),
            forall|j: int| 0 <= j < i ==> lower(#[trigger] chars@.skip(from as int)[j]) == word@[j],
        decreases word.len() - i,
    {
        if small(chars[from + i]) != word[i] {
            proof {
                assert(chars@.skip(from as int)[i as int] == chars@[from + i]);
            }
            return false;
        }
        i += 1;
    }
    true
}

fn special_at(chars: &Vec<char>, from: usize) -> (b: bool)
    requires
        from <= chars.len(),
    ensures
        b == is_special(chars@.skip(from as int)),
{
    let inf: Vec<char> = vec!['i', 'n', 'f'];
    let nan: Vec<char> = vec!['n', 'a', 'n'];
    let infinity: Vec<char> = vec!['i', 'n', 'f', 'i', 'n', 'i', 't', 'y'];
    proof {
        assert(inf@ =~= seq!['i', 'n', 'f']);
        assert(nan@ =~= seq!['n', 'a', 'n']);
        assert(infinity@ =~= seq!['i', 'n', 'f', 'i', 'n', 'i', 't', 'y']);
    }
    word_at(chars, from, &inf) || word_at(chars, from, &nan) || word_at(chars, from, &infinity)
}

fn exponent_at(chars: &Vec<char>, from: usize) -> (b: bool)
    requires
        from <= chars.len(),
    ensures
        b == is_exponent(chars@.skip(from as int)),
{
    if from == chars.len() {
        return true;
    }
    if chars[from] != 'e' && chars[from] != 'E' {
        return false;
    }
    proof {
        assert(chars@.skip(from as int).drop_first() == chars@.skip(from + 1));
    }
    let digits = skip_sign(chars, from + 1);
    let end = skip_digits(chars, digits);
    digits < chars.len() && end == chars.len()
}

fn decimal_at(chars: &Vec<char>, from: usize) -> (b: bool)
    requires
        from <= chars.len(),
    ensures
        b == is_decimal(chars@.skip(from as int)),
{
    let point = skip_digits(chars, from);
    proof {
        assert(chars@.skip(from as int).skip(point - from) == chars@.skip(point as int));
    }
    if point < chars.len() && chars[point] == '.' {
        let end = skip_digits(chars, point + 1);
        proof {
            let rest = chars@.skip(point as int);
            assert(rest.drop_first() == chars@.skip(point + 1));
            assert(rest.skip(1 + (end - point - 1)) == chars@.skip(end as int));
        }
        (point - from) + (end - point - 1) > 0 && exponent_at(chars, end)
    } else {
        point > from && exponent_at(chars, point)
    }
}

/// Whether `chars` is written as a number.
pub fn number_text(chars: &Vec<char>) -> (b: bool)
    ensures
        b == is_number(chars@),
{
    proof {
        assert(chars@.skip(0) == chars@);
    }
    let body = skip_sign(chars, 0);
    special_at(chars, body) || decimal_at(chars, body)
}

/// A numeric value, held as the text that a device or a file wrote it in.
/// The text always follows the grammar of `is_number`.
#[derive(Debug)]
pub struct Number {
    text: String,
}

impl View for Number {
    type V = Seq<char>;

    closed spec fn view(&self) -> Seq<char> {
        self.text@
    }
}

impl Number {
    #[verifier::type_invariant]
    spec fn well_formed(self) -> bool {
        is_number(self.text@)
    }

    /// The number that `token` writes, if it writes one. White space is not
    /// skipped: `token` is the whole number.
    pub fn parse(token: &str) -> (r: Option<Number>)
        ensures
            r is Some <==> is_number(token@),
            r is Some ==> r.unwrap()@ == token@,
    {
        let chars = chars_of(token);
        if number_text(&chars) {
            Some(Number { text: token.to_owned() })
        } else {
            None
        }
    }

    /// The text of the number, which follows the grammar.
    pub fn as_str(&self) -> (s: &str)
        ensures
            s@ == self@,
            is_number(self@),
    {
        proof {
            use_type_invariant(self);
        }
        self.text.as_str()
    }
}

impl Clone for Number {
    fn clone(&self) -> (r: Number)
        ensures
            r@ == self@,
            is_number(r@),
    {
        proof {
            use_type_invariant(self);
        }
        Number { text: self.text.clone() }
    }
}

} // verus!
