//! Text helpers: decimal numerals and character-level string building.
use vstd::prelude::*;

verus! {

/// Appends one character to a string (`String::push`).
#[verifier::external_body]
pub(crate) fn push_char(s: &mut String, c: char)
    ensures
        final(s)@ == old(s)@.push(c),
{
    s.push(c)
}

/// The ASCII digit for a value in 0..=9.
pub open spec fn digit_char(d: int) -> char {
    ((d + 48) as u8) as char
}

/// Decimal digits of a natural number, most significant first, no leading zeros.
pub open spec fn nat_text(n: nat) -> Seq<char>
    decreases n,
{
    if n < 10 {
        seq![digit_char(n as int)]
    } else {
        nat_text(n / 10).push(digit_char((n % 10) as int))
    }
}

/// Decimal text of an integer, with a leading `-` when it is negative.
pub open spec fn int_text(i: int) -> Seq<char> {
    if i < 0 {
        seq!['-'] + nat_text((-i) as nat)
    } else {
        nat_text(i as nat)
    }
}

fn push_digits(s: &mut String, n: u64)
    ensures
        final(s)@ == old(s)@ + nat_text(n as nat),
    decreases n,
{
    if n >= 10 {
        push_digits(s, n / 10);
    }
    let d: u8 = (n % 10) as u8;
    push_char(s, (d + 48) as char);
    assert(final(s)@ =~= old(s)@ + nat_text(n as nat)) by {
        if n >= 10 {
            assert(nat_text(n as nat) == nat_text((n / 10) as nat).push(digit_char((n % 10) as int)));
        }
    }
}

/// Appends the decimal text of `n` to `s`.
pub fn push_int(s: &mut String, n: i64)
    ensures
        final(s)@ == old(s)@ + int_text(n as int),
{
    if n < 0 {
        push_char(s, '-');
        let magnitude: u64 = (-(n as i128)) as u64;
        push_digits(s, magnitude);
        assert(final(s)@ =~= old(s)@ + int_text(n as int));
    } else {
        push_digits(s, n as u64);
    }
}

/// The decimal text of `n`, as `format!("{}", n)` writes it.
pub fn int_to_string(n: i64) -> (text: String)
    ensures
        text@ == int_text(n as int),
{
    let mut s = String::new();
    push_int(&mut s, n);
    assert(s@ =~= int_text(n as int));
    s
}


/// The characters of a string slice.
pub fn chars_of(s: &str) -> (chars: Vec<char>)
    ensures
        chars@ == s@,
{
    let n = s.unicode_len();
    let mut chars: Vec<char> = Vec::new();
    let mut i: usize = 0;
    while i < n
        invariant
            n == s@.len(),
            i <= n,
            chars@ == s@.take(i as int),
        decreases n - i,
    {
        chars.push(s.get_char(i));
        assert(chars@ =~= s@.take(i + 1));
        i = i + 1;
    }
    assert(s@.take(n as int) =~= s@);
    chars
}

/// The Unicode `White_Space` property, which `char::is_whitespace` tests.
pub open spec fn is_space(c: char) -> bool {
    let u = c as u32;
    ||| 0x09 <= u <= 0x0d
    ||| u == 0x20
    ||| u == 0x85
    ||| u == 0xa0
    ||| u == 0x1680
    ||| 0x2000 <= u <= 0x200a
    ||| u == 0x2028
    ||| u == 0x2029
    ||| u == 0x202f
    ||| u == 0x205f
    ||| u == 0x3000
}

/// Whether `c` is white space.
pub fn is_white_space(c: char) -> (b: bool)
    ensures
        b == is_space(c),
{
    let u = c as u32;
    (0x09 <= u && u <= 0x0d) || u == 0x20 || u == 0x85 || u == 0xa0 || u == 0x1680 || (0x2000 <= u
        && u <= 0x200a) || u == 0x2028 || u == 0x2029 || u == 0x202f || u == 0x205f || u == 0x3000
}

/// The ASCII lower case of a character; other characters are unchanged.
pub open spec fn ascii_lower(c: char) -> char {
    if 'A' <= c <= 'Z' {
        ((c as u32) + 32) as char
    } else {
        c
    }
}

/// The ASCII lower case of a text (`str::to_ascii_lowercase`).
pub open spec fn lower_text(s: Seq<char>) -> Seq<char> {
    s.map_values(|c: char| ascii_lower(c))
}

/// The ASCII lower case of the characters from `from` on.
pub fn lowercase_from(chars: &Vec<char>, from: usize) -> (s: String)
    requires
        from <= chars.len(),
    ensures
        s@ == lower_text(chars@.skip(from as int)),
{
    let mut s = String::new();
    let mut i: usize = from;
    while i < chars.len()
        invariant
            from <= i <= chars.len(),
            s@ == lower_text(chars@.subrange(from as int, i as int)),
        decreases chars.len() - i,
    {
        let c = chars[i];
        let l = if 'A' <= c && c <= 'Z' {
            ((c as u8) + 32) as char
        } else {
            c
        };
        push_char(&mut s, l);
        assert(s@ =~= lower_text(chars@.subrange(from as int, i + 1)));
        i = i + 1;
    }
    assert(chars@.subrange(from as int, i as int) =~= chars@.skip(from as int));
    s
}

/// The leading run of non-space characters.
pub open spec fn take_word(s: Seq<char>) -> Seq<char>
    decreases s.len(),
{
    if s.len() > 0 && !is_space(s[0]) {
        seq![s[0]] + take_word(s.drop_first())
    } else {
        Seq::empty()
    }
}

/// What is left once the leading white space is dropped.
pub open spec fn skip_spaces(s: Seq<char>) -> Seq<char>
    decreases s.len(),
{
    if s.len() > 0 && is_space(s[0]) {
        skip_spaces(s.drop_first())
    } else {
        s
    }
}

/// What is left once the leading run of non-space characters is dropped.
pub open spec fn skip_word(s: Seq<char>) -> Seq<char>
    decreases s.len(),
{
    if s.len() > 0 && !is_space(s[0]) {
        skip_word(s.drop_first())
    } else {
        s
    }
}

pub proof fn lemma_take_word_len(s: Seq<char>)
    ensures
        take_word(s).len() <= s.len(),
        s.len() > 0 && !is_space(s[0]) ==> take_word(s).len() >= 1,
        take_word(s) == s.take(take_word(s).len() as int),
        skip_word(s) == s.skip(take_word(s).len() as int),
    decreases s.len(),
{
    if s.len() > 0 && !is_space(s[0]) {
        lemma_take_word_len(s.drop_first());
        assert(take_word(s) =~= s.take(take_word(s).len() as int));
        assert(skip_word(s) =~= s.skip(take_word(s).len() as int));
    } else {
        assert(s.take(0) =~= Seq::<char>::empty());
        assert(s.skip(0) =~= s);
    }
}

/// The words of a text: its maximal runs of non-space characters, in order
/// (what `str::split_whitespace` yields).
pub open spec fn words(s: Seq<char>) -> Seq<Seq<char>>
    decreases s.len(),
{
    if s.len() == 0 {
        Seq::empty()
    } else if is_space(s[0]) {
        words(s.drop_first())
    } else {
        proof {
            lemma_take_word_len(s);
        }
        seq![take_word(s)] + words(s.skip(take_word(s).len() as int))
    }
}


proof fn lemma_take_word_exact(t: Seq<char>, k: int)
    requires
        0 <= k <= t.len(),
        forall|m: int| 0 <= m < k ==> !is_space(#[trigger] t[m]),
        k == t.len() || is_space(t[k]),
    ensures
        take_word(t).len() == k,
    decreases k,
{
    if k > 0 {
        assert forall|m: int| 0 <= m < k - 1 implies !is_space(#[trigger] t.drop_first()[m]) by {
            assert(t.drop_first()[m] == t[m + 1]);
        }
        lemma_take_word_exact(t.drop_first(), k - 1);
    }
}

/// The views of a list of strings.
pub open spec fn string_views(ws: Seq<String>) -> Seq<Seq<char>> {
    ws.map_values(|w: String| w@)
}

/// Splits a text into its words.
pub fn split_words(chars: &Vec<char>) -> (ws: Vec<String>)
    ensures
        string_views(ws@) == words(chars@),
{
    let ghost s = chars@;
    let mut ws: Vec<String> = Vec::new();
    let mut i: usize = 0;
    assert(s.skip(0) =~= s);
    assert(string_views(ws@) + words(s) =~= words(s));
    while i < chars.len()
        invariant
            s == chars@,
            i <= chars.len(),
            string_views(ws@) + words(s.skip(i as int)) == words(s),
        decreases chars.len() - i,
    {
        if is_white_space(chars[i]) {
            assert(s.skip(i as int).drop_first() =~= s.skip(i + 1));
            assert(words(s.skip(i as int)) == words(s.skip(i + 1)));
            i = i + 1;
        } else {
            let start = i;
            let mut w = String::new();
            while i < chars.len() && !is_white_space(chars[i])
                invariant
                    s == chars@,
                    start <= i <= chars.len(),
                    forall|m: int| start <= m < i ==> !is_space(#[trigger] s[m]),
                    w@ == s.subrange(start as int, i as int),
                decreases chars.len() - i,
            {
                push_char(&mut w, chars[i]);
                assert(w@ =~= s.subrange(start as int, i + 1));
                i = i + 1;
            }
            let ghost t = s.skip(start as int);
            proof {
                assert forall|m: int| 0 <= m < i - start implies !is_space(#[trigger] t[m]) by {
                    assert(t[m] == s[start + m]);
                }
                if i < chars.len() {
                    assert(t[i - start] == s[i as int]);
                }
                lemma_take_word_exact(t, i - start);
                lemma_take_word_len(t);
                assert(t.skip(i - start) =~= s.skip(i as int));
                assert(take_word(t) =~= s.subrange(start as int, i as int));
                assert(words(t) == seq![take_word(t)] + words(t.skip(take_word(t).len() as int)));
            }
            let ghost before = ws@;
            ws.push(w);
            proof {
                assert(string_views(ws@) =~= string_views(before).push(s.subrange(start as int, i as int)));
                assert(string_views(ws@) + words(s.skip(i as int)) =~= string_views(before) + words(t));
            }
        }
    }
    assert(s.skip(i as int) =~= Seq::<char>::empty());
    assert(string_views(ws@) + Seq::<Seq<char>>::empty() =~= string_views(ws@));
    ws
}

} // verus!
