//! Decimal text. The rotation indices are persisted as plain decimal
//! digits, and the dimension probe reports sizes as digit runs; this module
//! reads and writes that format and pins down its meaning.
use vstd::prelude::*;
use vstd::string::StrSliceExecFns;
use vstd::string::StringExecFns;

verus! {

/// Whether `c` is an ASCII decimal digit.
pub open spec fn is_digit(c: char) -> bool {
    48 <= c as u32 && c as u32 <= 57
}

/// The numeric value of the digit `c`.
pub open spec fn digit_val(c: char) -> int {
    c as u32 - 48
}

/// Whether every character of `s` is an ASCII decimal digit.
pub open spec fn all_digits(s: Seq<char>) -> bool {
    forall|i: int| 0 <= i < s.len() ==> is_digit(s[i])
}

/// The value of the digit run `s` read as decimal, most significant digit
/// first.
pub open spec fn digits_val(s: Seq<char>) -> int
    decreases s.len(),
{
    if s.len() == 0 {
        0
    } else {
        digits_val(s.drop_last()) * 10 + digit_val(s.last())
    }
}

/// Whether `c` is ASCII whitespace.
pub open spec fn is_ws(c: char) -> bool {
    c as u32 == 32 || c as u32 == 9 || c as u32 == 10 || c as u32 == 13
}

/// Length of the run of whitespace that `s` starts with.
pub open spec fn ws_prefix_len(s: Seq<char>) -> int
    decreases s.len(),
{
    if s.len() > 0 && is_ws(s[0]) {
        1 + ws_prefix_len(s.drop_first())
    } else {
        0
    }
}

/// Length of the run of whitespace that `s` ends with.
pub open spec fn ws_suffix_len(s: Seq<char>) -> int
    decreases s.len(),
{
    if s.len() > 0 && is_ws(s.last()) {
        1 + ws_suffix_len(s.drop_last())
    } else {
        0
    }
}

/// Length of the run of non-whitespace that `s` starts with.
pub open spec fn token_len(s: Seq<char>) -> int
    decreases s.len(),
{
    if s.len() > 0 && !is_ws(s[0]) {
        1 + token_len(s.drop_first())
    } else {
        0
    }
}

/// `s` with its surrounding whitespace removed.
pub open spec fn trim_ws(s: Seq<char>) -> Seq<char> {
    let t = s.skip(ws_prefix_len(s));
    t.take(t.len() - ws_suffix_len(t))
}

/// The index a persisted text denotes: trimmed of surrounding whitespace it
/// must be a run of decimal digits whose value fits in `u64`; anything else
/// reads as 0.
pub open spec fn index_text_value(s: Seq<char>) -> u64 {
    let t = trim_ws(s);
    if t.len() > 0 && all_digits(t) && digits_val(t) <= u64::MAX {
        digits_val(t) as u64
    } else {
        0
    }
}

/// `ws_prefix_len` is the position of the first non-whitespace character.
pub proof fn lemma_ws_prefix_at(s: Seq<char>, a: int)
    requires
        0 <= a <= s.len(),
        forall|j: int| 0 <= j < a ==> is_ws(s[j]),
        a < s.len() ==> !is_ws(s[a]),
    ensures
        ws_prefix_len(s) == a,
    decreases a,
{
    if a == 0 {
    } else {
        assert(is_ws(s[0]));
        assert forall|j: int| 0 <= j < a - 1 implies is_ws(s.drop_first()[j]) by {
            assert(s.drop_first()[j] == s[j + 1]);
        }
        if a - 1 < s.drop_first().len() {
            assert(s.drop_first()[a - 1] == s[a]);
        }
        lemma_ws_prefix_at(s.drop_first(), a - 1);
    }
}

/// `token_len` is the position of the first whitespace character.
pub proof fn lemma_token_at(s: Seq<char>, l: int)
    requires
        0 <= l <= s.len(),
        forall|j: int| 0 <= j < l ==> !is_ws(s[j]),
        l < s.len() ==> is_ws(s[l]),
    ensures
        token_len(s) == l,
    decreases l,
{
    if l == 0 {
    } else {
        assert(!is_ws(s[0]));
        assert forall|j: int| 0 <= j < l - 1 implies !is_ws(s.drop_first()[j]) by {
            assert(s.drop_first()[j] == s[j + 1]);
        }
        if l - 1 < s.drop_first().len() {
            assert(s.drop_first()[l - 1] == s[l]);
        }
        lemma_token_at(s.drop_first(), l - 1);
    }
}

/// `ws_suffix_len` is determined by the position after the last
/// non-whitespace character.
pub proof fn lemma_ws_suffix_at(s: Seq<char>, b: int)
    requires
        0 <= b <= s.len(),
        forall|j: int| b <= j < s.len() ==> is_ws(s[j]),
        b > 0 ==> !is_ws(s[b - 1]),
    ensures
        ws_suffix_len(s) == s.len() - b,
    decreases s.len() - b,
{
    if b == s.len() {
    } else {
        assert(is_ws(s.last()));
        assert forall|j: int| b <= j < s.drop_last().len() implies is_ws(s.drop_last()[j]) by {
            assert(s.drop_last()[j] == s[j]);
        }
        if b > 0 {
            assert(s.drop_last()[b - 1] == s[b - 1]);
        }
        lemma_ws_suffix_at(s.drop_last(), b);
    }
}

/// A run of digits is never negative.
pub proof fn lemma_digits_val_nonneg(s: Seq<char>)
    requires
        all_digits(s),
    ensures
        digits_val(s) >= 0,
    decreases s.len(),
{
    if s.len() > 0 {
        assert forall|i: int| 0 <= i < s.drop_last().len() implies is_digit(s.drop_last()[i]) by {
            assert(s.drop_last()[i] == s[i]);
        }
        lemma_digits_val_nonneg(s.drop_last());
    }
}

/// Extending a digit run can only grow its value.
pub proof fn lemma_digits_val_prefix(s: Seq<char>, j: int)
    requires
        all_digits(s),
        0 <= j <= s.len(),
    ensures
        digits_val(s) >= digits_val(s.take(j)),
    decreases s.len() - j,
{
    if j == s.len() {
        assert(s.take(j) =~= s);
    } else {
        assert(s.take(j + 1).drop_last() =~= s.take(j));
        assert(s.take(j + 1).last() == s[j]);
        assert forall|i: int| 0 <= i < s.take(j).len() implies is_digit(s.take(j)[i]) by {
            assert(s.take(j)[i] == s[i]);
        }
        lemma_digits_val_nonneg(s.take(j));
        lemma_digits_val_prefix(s, j + 1);
    }
}

/// Whether `c` is ASCII whitespace.
pub fn char_is_ws(c: char) -> (r: bool)
    ensures
        r == is_ws(c),
{
    let u = c as u32;
    u == 32 || u == 9 || u == 10 || u == 13
}

/// Reads `s[from..to]` as a decimal number: its value, if the range is a
/// nonempty run of digits whose value fits in `u64`; otherwise nothing.
pub fn parse_digits_range(s: &str, from: usize, to: usize) -> (r: Option<u64>)
    requires
        from <= to <= s@.len(),
    ensures
        r == (if from < to && all_digits(s@.subrange(from as int, to as int)) && digits_val(
            s@.subrange(from as int, to as int),
        ) <= u64::MAX {
            Some(digits_val(s@.subrange(from as int, to as int)) as u64)
        } else {
            None::<u64>
        }),
{
    if from == to {
        return None;
    }
    let ghost t = s@.subrange(from as int, to as int);
    let mut acc: u64 = 0;
    let mut i: usize = from;
    proof {
        assert(s@.subrange(from as int, from as int) =~= Seq::<char>::empty());
    }
    while i < to
        invariant
            from <= i <= to,
            to <= s@.len(),
            t == s@.subrange(from as int, to as int),
            all_digits(s@.subrange(from as int, i as int)),
            acc == digits_val(s@.subrange(from as int, i as int)),
        decreases to - i,
    {
        let c = s.get_char(i);
        let cu = c as u32;
        proof {
            assert(s@.subrange(from as int, i as int + 1).drop_last() =~= s@.subrange(
                from as int,
                i as int,
            ));
            assert(s@.subrange(from as int, i as int + 1).last() == s@[i as int]);
            assert(t[i - from] == s@[i as int]);
        }
        if !(48 <= cu && cu <= 57) {
            proof {
                assert(!is_digit(t[i - from]));
            }
            return None;
        }
        let d: u64 = (cu - 48) as u64;
        if acc > 1844674407370955161u64 || (acc == 1844674407370955161u64 && d > 5) {
            proof {
                assert(digits_val(s@.subrange(from as int, i as int + 1)) == acc * 10 + d);
                assert(acc * 10 + d > u64::MAX);
                if all_digits(t) && digits_val(t) <= u64::MAX {
                    lemma_digits_val_prefix(t, i as int + 1 - from);
                    assert(t.take(i as int + 1 - from) =~= s@.subrange(from as int, i as int + 1));
                }
            }
            return None;
        }
        proof {
            assert(acc * 10 + d <= u64::MAX);
        }
        acc = acc * 10 + d;
        i += 1;
    }
    Some(acc)
}

/// The index a persisted text denotes; unreadable text reads as 0.
pub fn parse_index(s: &str) -> (r: u64)
    ensures
        r == index_text_value(s@),
{
    let n = s.unicode_len();
    let mut a: usize = 0;
    loop
        invariant_except_break
            a <= n,
            n == s@.len(),
            forall|j: int| 0 <= j < a ==> is_ws(s@[j]),
        ensures
            a <= n,
            n == s@.len(),
            forall|j: int| 0 <= j < a ==> is_ws(s@[j]),
            a < n ==> !is_ws(s@[a as int]),
        decreases n - a,
    {
        if a >= n {
            break ;
        }
        if !char_is_ws(s.get_char(a)) {
            break ;
        }
        a += 1;
    }
    let mut b: usize = n;
    loop
        invariant_except_break
            a <= b <= n,
            n == s@.len(),
            forall|j: int| b <= j < n ==> is_ws(s@[j]),
        ensures
            a <= b <= n,
            n == s@.len(),
            forall|j: int| b <= j < n ==> is_ws(s@[j]),
            b > a ==> !is_ws(s@[b - 1]),
        decreases b,
    {
        if b <= a {
            break ;
        }
        if !char_is_ws(s.get_char(b - 1)) {
            break ;
        }
        b -= 1;
    }
    proof {
        lemma_ws_prefix_at(s@, a as int);
        let t = s@.skip(a as int);
        assert forall|j: int| b - a <= j < t.len() implies is_ws(t[j]) by {
            assert(t[j] == s@[a + j]);
        }
        if b > a {
            assert(t[b - a - 1] == s@[b - 1]);
        }
        lemma_ws_suffix_at(t, b as int - a as int);
        assert(t.take(b - a) =~= s@.subrange(a as int, b as int));
        assert(trim_ws(s@) == s@.subrange(a as int, b as int));
    }
    match parse_digits_range(s, a, b) {
        Some(v) => v,
        None => 0,
    }
}

/// The decimal digit `d` as text.
fn digit_str(d: u64) -> (r: &'static str)
    requires
        d < 10,
    ensures
        r@.len() == 1,
        is_digit(r@[0]),
        digit_val(r@[0]) == d as int,
{
    proof {
        reveal_strlit("0");
        reveal_strlit("1");
        reveal_strlit("2");
        reveal_strlit("3");
        reveal_strlit("4");
        reveal_strlit("5");
        reveal_strlit("6");
        reveal_strlit("7");
        reveal_strlit("8");
        reveal_strlit("9");
    }
    if d == 0 {
        "0"
    } else if d == 1 {
        "1"
    } else if d == 2 {
        "2"
    } else if d == 3 {
        "3"
    } else if d == 4 {
        "4"
    } else if d == 5 {
        "5"
    } else if d == 6 {
        "6"
    } else if d == 7 {
        "7"
    } else if d == 8 {
        "8"
    } else {
        "9"
    }
}

/// Writes `n` as decimal text, the form the index files hold.
pub fn format_index(n: u64) -> (r: String)
    ensures
        r@.len() > 0,
        all_digits(r@),
        digits_val(r@) == n,
        r@.len() > 1 ==> digit_val(r@[0]) != 0,
    decreases n,
{
    if n < 10 {
        let s = String::from_str(digit_str(n));
        proof {
            assert(s@.drop_last() =~= Seq::<char>::empty());
            assert(digits_val(Seq::<char>::empty()) == 0);
            assert(s@.last() == s@[0]);
            assert(digits_val(s@) == digit_val(s@[0]));
        }
        s
    } else {
        let mut s = format_index(n / 10);
        let ghost prefix = s@;
        let last = digit_str(n % 10);
        s.append(last);
        proof {
            assert(s@.drop_last() =~= prefix);
            assert(s@.last() == last@[0]);
            assert forall|i: int| 0 <= i < s@.len() implies is_digit(s@[i]) by {
                if i < prefix.len() {
                    assert(s@[i] == prefix[i]);
                }
            }
            assert(digits_val(s@) == (n / 10) * 10 + (n % 10));
            assert(s@[0] == prefix[0]);
            if prefix.len() == 1 {
                assert(prefix.drop_last() =~= Seq::<char>::empty());
                assert(digits_val(Seq::<char>::empty()) == 0);
                assert(prefix.last() == prefix[0]);
                assert(digits_val(prefix) == digit_val(prefix[0]));
            }
        }
        s
    }
}

/// Round trip of the index text: a run of digits whose value fits reads
/// back as exactly that value, so a saved index is what the next run loads.
pub proof fn lemma_index_text_round_trip(s: Seq<char>)
    requires
        s.len() > 0,
        all_digits(s),
        digits_val(s) <= u64::MAX,
    ensures
        index_text_value(s) == digits_val(s),
{
    assert(!is_ws(s[0]));
    lemma_ws_prefix_at(s, 0);
    assert(s.skip(0) =~= s);
    assert(!is_ws(s[s.len() - 1]));
    lemma_ws_suffix_at(s, s.len() as int);
    assert(s.take(s.len() as int) =~= s);
    assert(trim_ws(s) == s);
    lemma_digits_val_nonneg(s);
}

} // verus!
