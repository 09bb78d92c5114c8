//! Decimal text: parsing signed integers the way `str::parse::<i32>` reads
//! them, and formatting integers back to decimal digits.

use vstd::prelude::*;

verus! {

/// An ASCII decimal digit.
pub open spec fn is_digit_char(c: char) -> bool {
    '0' <= c && c <= '9'
}

/// The numeric value of a digit character.
pub open spec fn digit_val(c: char) -> int {
    c as int - '0' as int
}

/// The digit character for a value below ten.
pub open spec fn digit_char(d: int) -> char {
    (d + '0' as int) as char
}

pub open spec fn all_digits(s: Seq<char>) -> bool {
    forall|i: int| 0 <= i < s.len() ==> is_digit_char(s[i])
}

/// The value of an unsigned digit string, most significant digit first.
pub open spec fn digits_val(s: Seq<char>) -> int
    decreases s.len(),
{
    if s.len() == 0 {
        0
    } else {
        digits_val(s.drop_last()) * 10 + digit_val(s.last())
    }
}

pub proof fn lemma_digits_val_nonneg(s: Seq<char>)
    requires
        all_digits(s),
    ensures
        digits_val(s) >= 0,
    decreases s.len(),
{
    if s.len() > 0 {
        lemma_digits_val_nonneg(s.drop_last());
    }
}

/// The digit text of an integer number, without a sign: the part after the
/// optional leading `+` or `-`.
pub open spec fn int_text_body(s: Seq<char>) -> Seq<char> {
    if s.len() > 0 && (s[0] == '+' || s[0] == '-') {
        s.drop_first()
    } else {
        s
    }
}

/// Whether the whole of `s` reads as a signed decimal integer: an optional
/// sign followed by one or more digits and nothing else.
pub open spec fn is_int_text(s: Seq<char>) -> bool {
    int_text_body(s).len() > 0 && all_digits(int_text_body(s))
}

/// The signed value that `s` denotes.
pub open spec fn int_text_val(s: Seq<char>) -> int {
    if s.len() > 0 && s[0] == '-' {
        -digits_val(int_text_body(s))
    } else {
        digits_val(int_text_body(s))
    }
}

/// What `str::parse::<i32>` returns on `s`: the denoted value when `s` is
/// well-formed and the value fits, nothing otherwise.
pub open spec fn parse_i32_spec(s: Seq<char>) -> Option<i32> {
    if is_int_text(s) && i32::MIN <= int_text_val(s) <= i32::MAX {
        Some(int_text_val(s) as i32)
    } else {
        None
    }
}

/// Read the whole of `s` as a signed 32-bit decimal integer.
pub fn parse_i32(s: &str) -> (r: Option<i32>)
    ensures
        r == parse_i32_spec(s@),
{
    let n = s.unicode_len();
    let ghost body = int_text_body(s@);
    let mut neg = false;
    let mut start: usize = 0;
    if n > 0 {
        let c0 = s.get_char(0);
        if c0 == '-' {
            neg = true;
            start = 1;
        } else if c0 == '+' {
            start = 1;
        }
    }
    proof {
        assert(body =~= s@.subrange(start as int, n as int));
    }
    if start == n {
        // no digits at all
        return None;
    }
    let mut i: usize = start;
    let mut mag: u64 = 0;
    let mut too_big = false;
    while i < n
        invariant
            n == s@.len(),
            start <= i <= n,
            body == int_text_body(s@),
            body == s@.subrange(start as int, n as int),
            all_digits(s@.subrange(start as int, i as int)),
            !too_big ==> mag <= 0x8000_0000u64 && mag == digits_val(
                s@.subrange(start as int, i as int),
            ),
            too_big ==> digits_val(s@.subrange(start as int, i as int)) > 0x8000_0000,
        decreases n - i,
    {
        let c = s.get_char(i);
        let code = c as u32;
        if code < 48 || code > 57 {
            // a character that is no digit: the text is not an integer
            proof {
                assert(!is_digit_char(body[i - start]));
                assert(!all_digits(int_text_body(s@)));
            }
            return None;
        }
        let d: u64 = (code - 48) as u64;
        let ghost prefix = s@.subrange(start as int, i as int);
        let ghost prefix1 = s@.subrange(start as int, i + 1);
        proof {
            assert(prefix1.drop_last() =~= prefix);
            assert(prefix1.last() == s@[i as int]);
            lemma_digits_val_nonneg(prefix);
        }
        if !too_big {
            mag = mag * 10 + d;
            if mag > 0x8000_0000u64 {
                too_big = true;
            }
        }
        i = i + 1;
    }
    proof {
        assert(s@.subrange(start as int, i as int) =~= body);
        if neg {
            assert(s@[0] == '-');
        } else {
            assert(!(s@.len() > 0 && s@[0] == '-'));
        }
    }
    if too_big {
        None
    } else if neg {
        if mag == 0x8000_0000u64 {
            Some(i32::MIN)
        } else {
            Some(-(mag as i32))
        }
    } else {
        if mag >= 0x8000_0000u64 {
            None
        } else {
            Some(mag as i32)
        }
    }
}

/// The decimal digits of a number that is not negative.
pub open spec fn dec_digits(n: int) -> Seq<char>
    decreases n,
{
    if n < 10 {
        seq![digit_char(n)]
    } else {
        dec_digits(n / 10).push(digit_char(n % 10))
    }
}

/// The decimal text of an integer: a minus sign ahead of the digits when it
/// is negative.
pub open spec fn dec_rep(n: int) -> Seq<char> {
    if n < 0 {
        seq!['-'] + dec_digits(-n)
    } else {
        dec_digits(n)
    }
}

pub proof fn lemma_dec_digits_wf(n: int)
    requires
        n >= 0,
    ensures
        dec_digits(n).len() >= 1,
        all_digits(dec_digits(n)),
        digits_val(dec_digits(n)) == n,
    decreases n,
{
    if n < 10 {
        let s = dec_digits(n);
        assert(s =~= seq![digit_char(n)]);
        assert(digit_val(digit_char(n)) == n);
        assert(s.drop_last() =~= Seq::<char>::empty());
        assert(digits_val(Seq::<char>::empty()) == 0);
        assert(s.last() == digit_char(n));
        assert(digits_val(s) == digits_val(s.drop_last()) * 10 + digit_val(s.last()));
    } else {
        lemma_dec_digits_wf(n / 10);
        let s = dec_digits(n);
        assert(s.drop_last() =~= dec_digits(n / 10));
        assert(s.last() == digit_char(n % 10));
        assert(digit_val(digit_char(n % 10)) == n % 10);
        assert(digits_val(s) == digits_val(s.drop_last()) * 10 + digit_val(s.last()));
    }
}

/// The decimal text of a number is never empty and holds nothing but digits
/// and the minus sign.
pub proof fn lemma_dec_rep_chars(n: int)
    ensures
        dec_rep(n).len() >= 1,
        forall|j: int|
            0 <= j < dec_rep(n).len() ==> (is_digit_char(#[trigger] dec_rep(n)[j]) || dec_rep(n)[j]
                == '-'),
{
    if n >= 0 {
        lemma_dec_digits_wf(n);
        assert forall|j: int| 0 <= j < dec_rep(n).len() implies (is_digit_char(
            #[trigger] dec_rep(n)[j],
        ) || dec_rep(n)[j] == '-') by {
            assert(dec_rep(n)[j] == dec_digits(n)[j]);
            assert(is_digit_char(dec_digits(n)[j]));
        }
    } else {
        lemma_dec_digits_wf(-n);
        let d = dec_digits(-n);
        assert forall|j: int| 0 <= j < dec_rep(n).len() implies (is_digit_char(
            #[trigger] dec_rep(n)[j],
        ) || dec_rep(n)[j] == '-') by {
            if j >= 1 {
                assert(dec_rep(n)[j] == d[j - 1]);
                assert(is_digit_char(d[j - 1]));
            }
        }
    }
}

/// Formatting then parsing gives the number back: the decimal text of any
/// value in 32-bit range reads as exactly that value.
pub proof fn lemma_parse_dec_rep(n: int)
    requires
        i32::MIN <= n <= i32::MAX,
    ensures
        parse_i32_spec(dec_rep(n)) == Some(n as i32),
{
    if n >= 0 {
        let s = dec_rep(n);
        lemma_dec_digits_wf(n);
        assert(is_digit_char(s[0]));
        assert(int_text_body(s) == s);
        assert(int_text_val(s) == n);
    } else {
        let s = dec_rep(n);
        let d = dec_digits(-n);
        lemma_dec_digits_wf(-n);
        assert(s[0] == '-');
        assert(int_text_body(s) =~= d);
        assert(digits_val(d) == -n);
        assert(int_text_val(s) == n);
    }
}

fn digit_str(d: u32) -> (r: &'static str)
    requires
        d < 10,
    ensures
        r@ =~= seq![digit_char(d as int)],
{
    proof {
        reveal_strlit("0");
        reveal_strlit("1");
        reveal_strlit("2");
        reveal_strlit("3");
        reveal_strlit("4");
        reveal_strlit("5");
        reveal_strlit("6");
        reveal_strlit("7");
        reveal_strlit("8");
        reveal_strlit("9");
    }
    match d {
        0 => "0",
        1 => "1",
        2 => "2",
        3 => "3",
        4 => "4",
        5 => "5",
        6 => "6",
        7 => "7",
        8 => "8",
        _ => "9",
    }
}

/// Format a number that is not negative as decimal digits.
pub fn u32_to_dec_string(n: u32) -> (r: String)
    ensures
        r@ == dec_digits(n as int),
    decreases n,
{
    if n < 10 {
        String::from_str(digit_str(n))
    } else {
        let prefix = u32_to_dec_string(n / 10);
        let r = prefix.concat(digit_str(n % 10));
        proof {
            assert(r@ =~= dec_digits(n as int));
        }
        r
    }
}

/// Format a signed 32-bit integer as decimal text.
pub fn i32_to_dec_string(n: i32) -> (r: String)
    ensures
        r@ == dec_rep(n as int),
{
    if n < 0 {
        let mag: u32 = (-(n as i64)) as u32;
        let digits = u32_to_dec_string(mag);
        let minus = String::from_str("-");
        let r = minus.concat(digits.as_str());
        proof {
            reveal_strlit("-");
            assert(r@ =~= dec_rep(n as int));
        }
        r
    } else {
        u32_to_dec_string(n as u32)
    }
}

/// The inside of a parenthesized id list: the numbers joined by a comma and
/// a space.
pub open spec fn id_list_inner(ids: Seq<int>) -> Seq<char>
    decreases ids.len(),
{
    if ids.len() == 0 {
        Seq::empty()
    } else if ids.len() == 1 {
        dec_rep(ids[0])
    } else {
        id_list_inner(ids.drop_last()) + seq![',', ' '] + dec_rep(ids.last())
    }
}

/// The text a query's `IN` clause takes: the ids in order, parenthesized,
/// separated by comma and space.
pub open spec fn id_list_spec(ids: Seq<int>) -> Seq<char> {
    seq!['('] + id_list_inner(ids) + seq![')']
}

/// Format a nonempty list of ids for a query's `IN` clause.
pub fn id_list_string(ids: &Vec<i32>) -> (r: String)
    requires
        ids@.len() > 0,
    ensures
        r@ == id_list_spec(ids@.map_values(|x: i32| x as int)),
{
    let ghost ghost_ids = ids@.map_values(|x: i32| x as int);
    let mut out = String::from_str("(");
    proof {
        reveal_strlit("(");
        assert(ghost_ids.take(0) =~= Seq::<int>::empty());
        assert(out@ =~= seq!['('] + id_list_inner(ghost_ids.take(0)));
    }
    let n = ids.len();
    let mut i: usize = 0;
    while i < n
        invariant
            n == ids.len(),
            0 <= i <= n,
            ghost_ids == ids@.map_values(|x: i32| x as int),
            out@ == seq!['('] + id_list_inner(ghost_ids.take(i as int)),
        decreases n - i,
    {
        if i > 0 {
            out.append(", ");
        }
        let digits = i32_to_dec_string(ids[i]);
        out.append(digits.as_str());
        proof {
            reveal_strlit("(");
            reveal_strlit(", ");
            let pre = ghost_ids.take(i as int);
            let cur = ghost_ids.take(i as int + 1);
            assert(cur.drop_last() =~= pre);
            assert(cur.last() == ghost_ids[i as int]);
            assert(ghost_ids[i as int] == ids@[i as int] as int);
            if i == 0 {
                assert(out@ =~= seq!['('] + id_list_inner(cur));
            } else {
                assert(out@ =~= seq!['('] + id_list_inner(cur));
            }
        }
        i = i + 1;
    }
    out.append(")");
    proof {
        reveal_strlit("(");
        reveal_strlit(")");
        assert(ghost_ids.take(n as int) =~= ghost_ids);
        assert(out@ =~= id_list_spec(ghost_ids));
    }
    out
}

} // verus!
