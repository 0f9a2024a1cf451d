//! Verified text building blocks: joining words, escaping quotes, and
//! rendering integers as decimal text.

use vstd::prelude::*;

verus! {

broadcast use vstd::string::group_string_axioms;

/// The whitespace-separated words of a string, as `str::split_whitespace`
/// produces them.
pub uninterp spec fn words_of(s: Seq<char>) -> Seq<Seq<char>>;

/// Relies on `str::split_whitespace`: the words depend on the characters
/// alone, and an empty string has no words.
#[verifier::external_body]
pub(crate) fn split_words(s: &str) -> (r: Vec<String>)
    ensures
        r@.map_values(|w: String| w@) == words_of(s@),
        s@.len() == 0 ==> r@.len() == 0,
{
    s.split_whitespace().map(|w| w.to_string()).collect()
}

/// Words joined by single spaces.
pub open spec fn spec_join_space(ws: Seq<Seq<char>>) -> Seq<char>
    decreases ws.len(),
{
    if ws.len() == 0 {
        Seq::empty()
    } else if ws.len() == 1 {
        ws[0]
    } else {
        spec_join_space(ws.drop_last()) + " "@ + ws.last()
    }
}

/// Joins `words[from..to]` with single spaces.
pub fn join_words(words: &Vec<String>, from: usize, to: usize) -> (r: String)
    requires
        from <= to <= words@.len(),
    ensures
        r@ == spec_join_space(words@.subrange(from as int, to as int).map_values(|w: String| w@)),
{
    let mut r = String::new();
    let mut i: usize = from;
    proof {
        assert(words@.subrange(from as int, from as int).map_values(|w: String| w@)
            =~= Seq::<Seq<char>>::empty());
    }
    while i < to
        invariant
            from <= i <= to <= words@.len(),
            r@ == spec_join_space(
                words@.subrange(from as int, i as int).map_values(|w: String| w@),
            ),
        decreases to - i,
    {
        let ghost prev = words@.subrange(from as int, i as int).map_values(|w: String| w@);
        let ghost next = words@.subrange(from as int, i + 1).map_values(|w: String| w@);
        proof {
            assert(next =~= prev.push(words@[i as int]@));
            assert(next.drop_last() =~= prev);
        }
        if i > from {
            r.append(" ");
        }
        r.append(words[i].as_str());
        i = i + 1;
    }
    r
}

/// A string with every double quote preceded by a backslash, so that it
/// stays one double-quoted shell argument.
pub open spec fn spec_escape_quotes(s: Seq<char>) -> Seq<char>
    decreases s.len(),
{
    if s.len() == 0 {
        Seq::empty()
    } else {
        (if s[0] == '"' {
            seq!['\\', '"']
        } else {
            seq![s[0]]
        }) + spec_escape_quotes(s.drop_first())
    }
}

/// Escaping distributes over concatenation.
pub proof fn lemma_escape_append(a: Seq<char>, b: Seq<char>)
    ensures
        spec_escape_quotes(a + b) == spec_escape_quotes(a) + spec_escape_quotes(b),
    decreases a.len(),
{
    if a.len() == 0 {
        assert(a + b =~= b);
        assert(spec_escape_quotes(a) + spec_escape_quotes(b) =~= spec_escape_quotes(b));
    } else {
        lemma_escape_append(a.drop_first(), b);
        assert((a + b).drop_first() =~= a.drop_first() + b);
        assert((a + b)[0] == a[0]);
    }
}

/// A string without double quotes is unchanged by escaping.
pub proof fn lemma_escape_no_quotes(s: Seq<char>)
    requires
        forall|k: int| 0 <= k < s.len() ==> s[k] != '"',
    ensures
        spec_escape_quotes(s) == s,
    decreases s.len(),
{
    if s.len() > 0 {
        assert(forall|k: int| 0 <= k < s.drop_first().len() ==> s.drop_first()[k] != '"');
        lemma_escape_no_quotes(s.drop_first());
        assert(seq![s[0]] + s.drop_first() =~= s);
    }
}

/// Escapes the double quotes of `s` with backslashes.
pub fn escape_quotes(s: &str) -> (r: String)
    ensures
        r@ == spec_escape_quotes(s@),
{
    proof {
        reveal_strlit("\\\"");
    }
    let n = s.unicode_len();
    let mut r = String::new();
    let mut seg_start: usize = 0;
    let mut i: usize = 0;
    while i < n
        invariant
            0 <= seg_start <= i <= n == s@.len(),
            forall|k: int| seg_start <= k < i ==> s@[k] != '"',
            r@ + s@.subrange(seg_start as int, i as int) == spec_escape_quotes(
                s@.subrange(0, i as int),
            ),
        decreases n - i,
    {
        let c = s.get_char(i);
        if c == '"' {
            let seg = s.substring_char(seg_start, i);
            r.append(seg);
            r.append("\\\"");
            proof {
                reveal_strlit("\\\"");
                let upto = s@.subrange(0, i as int);
                let quote = s@.subrange(i as int, i + 1);
                lemma_escape_append(upto, quote);
                lemma_escape_no_quotes(s@.subrange(seg_start as int, i as int));
                assert(quote =~= seq![s@[i as int]]);
                assert(quote.drop_first() =~= Seq::<char>::empty());
                assert(spec_escape_quotes(Seq::<char>::empty()) =~= Seq::<char>::empty());
                assert(spec_escape_quotes(quote) =~= seq!['\\', '"']);
                assert(s@.subrange(0, i + 1) =~= upto + quote);
                assert(("\\\"")@ =~= seq!['\\', '"']);
            }
            seg_start = i + 1;
            i = i + 1;
            proof {
                assert(s@.subrange(i as int, i as int) =~= Seq::<char>::empty());
                assert(r@ + s@.subrange(i as int, i as int) =~= r@);
            }
        } else {
            i = i + 1;
            proof {
                assert(s@.subrange(seg_start as int, i as int) =~= s@.subrange(
                    seg_start as int,
                    i - 1,
                ).push(s@[i - 1]));
                let upto = s@.subrange(0, i - 1);
                let one = s@.subrange(i - 1, i as int);
                lemma_escape_append(upto, one);
                assert(one =~= seq![s@[i - 1]]);
                assert(one.drop_first() =~= Seq::<char>::empty());
                assert(spec_escape_quotes(Seq::<char>::empty()) =~= Seq::<char>::empty());
                assert(spec_escape_quotes(one) =~= seq![s@[i - 1]]);
                assert(s@.subrange(0, i as int) =~= upto + one);
            }
        }
    }
    let seg = s.substring_char(seg_start, n);
    r.append(seg);
    proof {
        lemma_escape_no_quotes(s@.subrange(seg_start as int, n as int));
        assert(s@.subrange(0, n as int) =~= s@);
    }
    r
}

/// The decimal digit characters.
pub open spec fn digit_char(d: int) -> char {
    if d == 0 {
        '0'
    } else if d == 1 {
        '1'
    } else if d == 2 {
        '2'
    } else if d == 3 {
        '3'
    } else if d == 4 {
        '4'
    } else if d == 5 {
        '5'
    } else if d == 6 {
        '6'
    } else if d == 7 {
        '7'
    } else if d == 8 {
        '8'
    } else {
        '9'
    }
}

/// Decimal rendering of a non-negative integer, most significant digit
/// first, without leading zeroes (except for zero itself).
pub open spec fn spec_dec(n: int) -> Seq<char>
    decreases n,
{
    if n < 10 {
        seq![digit_char(n)]
    } else {
        spec_dec(n / 10) + seq![digit_char(n % 10)]
    }
}

/// Decimal rendering of a signed integer.
pub open spec fn spec_dec_signed(n: int) -> Seq<char> {
    if n < 0 {
        seq!['-'] + spec_dec(-n)
    } else {
        spec_dec(n)
    }
}

fn digit_str(d: u64) -> (r: &'static str)
    requires
        d < 10,
    ensures
        r@ == seq![digit_char(d as int)],
{
    proof {
        reveal_strlit("0");
        reveal_strlit("1");
        reveal_strlit("2");
        reveal_strlit("3");
        reveal_strlit("4");
        reveal_strlit("5");
        reveal_strlit("6");
        reveal_strlit("7");
        reveal_strlit("8");
        reveal_strlit("9");
    }
    let r = if d == 0 {
        "0"
    } else if d == 1 {
        "1"
    } else if d == 2 {
        "2"
    } else if d == 3 {
        "3"
    } else if d == 4 {
        "4"
    } else if d == 5 {
        "5"
    } else if d == 6 {
        "6"
    } else if d == 7 {
        "7"
    } else if d == 8 {
        "8"
    } else {
        "9"
    };
    proof {
        assert(r@ =~= seq![digit_char(d as int)]);
    }
    r
}

/// Renders an unsigned integer in decimal.
pub fn u64_to_string(n: u64) -> (r: String)
    ensures
        r@ == spec_dec(n as int),
    decreases n,
{
    if n < 10 {
        let mut r = String::new();
        r.append(digit_str(n));
        proof {
            assert(Seq::<char>::empty() + seq![digit_char(n as int)] =~= seq![
                digit_char(n as int),
            ]);
        }
        r
    } else {
        let mut r = u64_to_string(n / 10);
        r.append(digit_str(n % 10));
        r
    }
}

/// Renders a signed integer in decimal.
pub fn i64_to_string(n: i64) -> (r: String)
    ensures
        r@ == spec_dec_signed(n as int),
{
    proof {
        reveal_strlit("-");
    }
    if n >= 0 {
        u64_to_string(n as u64)
    } else {
        let mag: u64 = ((-(n + 1)) as u64) + 1;
        let mut r = String::new();
        r.append("-");
        let digits = u64_to_string(mag);
        r.append(digits.as_str());
        proof {
            assert(("-")@ =~= seq!['-']);
            assert(Seq::<char>::empty() + seq!['-'] + spec_dec(mag as int) =~= seq!['-']
                + spec_dec(mag as int));
        }
        r
    }
}

} // verus!
