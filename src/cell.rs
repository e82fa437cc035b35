//! Cleaning and decoding of the HTML held in one cell of a color-guide row.

use vstd::prelude::*;

verus! {

/// The entity spelling of a non-breaking space.
pub open spec fn nbsp_entity() -> Seq<char> {
    seq!['&', 'n', 'b', 's', 'p', ';']
}

/// `s` with every match of the non-empty pattern `pat` removed, the matches
/// taken from left to right without overlap.
pub open spec fn without(s: Seq<char>, pat: Seq<char>) -> Seq<char>
    decreases s.len(),
{
    if s.len() == 0 || pat.len() == 0 {
        s
    } else if pat.len() <= s.len() && s.subrange(0, pat.len() as int) == pat {
        without(s.subrange(pat.len() as int, s.len() as int), pat)
    } else {
        seq![s[0]] + without(s.drop_first(), pat)
    }
}

/// A cell's HTML with its non-breaking-space entities taken out.
pub open spec fn strip_nbsp(s: Seq<char>) -> Seq<char> {
    without(s, nbsp_entity())
}

pub open spec fn is_digit(c: char) -> bool {
    '0' <= c && c <= '9'
}

pub open spec fn all_digits(s: Seq<char>) -> bool {
    forall|i: int| 0 <= i < s.len() ==> is_digit(#[trigger] s[i])
}

/// The value of a string of decimal digits, most significant first.
pub open spec fn digits_value(s: Seq<char>) -> int
    decreases s.len(),
{
    if s.len() == 0 {
        0
    } else {
        10 * digits_value(s.drop_last()) + (s.last() as int - '0' as int)
    }
}

/// A decimal integer: an optional `+` or `-` sign and one or more ASCII
/// digits, nothing else, with a value that fits in an `i32`.
pub open spec fn decimal_i32(s: Seq<char>) -> Option<i32> {
    let negative = s.len() > 0 && s[0] == '-';
    let body = if s.len() > 0 && (s[0] == '-' || s[0] == '+') {
        s.drop_first()
    } else {
        s
    };
    let v = if negative {
        -digits_value(body)
    } else {
        digits_value(body)
    };
    if body.len() > 0 && all_digits(body) && i32::MIN <= v <= i32::MAX {
        Some(v as i32)
    } else {
        None
    }
}

/// The color pair that a row's id cell and name cell give, if the id cell
/// holds a decimal integer once non-breaking-space entities are gone.
pub open spec fn color_of_cells(id_text: Seq<char>, name_text: Seq<char>) -> Option<
    (Seq<char>, i32),
> {
    match decimal_i32(strip_nbsp(id_text)) {
        Some(id) => Some((strip_nbsp(name_text), id)),
        None => None,
    }
}

/// The ASCII digit for `d`, where `d < 10`.
pub open spec fn digit_char(d: nat) -> char {
    if d == 0 {
        '0'
    } else if d == 1 {
        '1'
    } else if d == 2 {
        '2'
    } else if d == 3 {
        '3'
    } else if d == 4 {
        '4'
    } else if d == 5 {
        '5'
    } else if d == 6 {
        '6'
    } else if d == 7 {
        '7'
    } else if d == 8 {
        '8'
    } else {
        '9'
    }
}

/// The decimal digits of `n`, most significant first, without leading zeros.
pub open spec fn digits_of(n: nat) -> Seq<char>
    decreases n,
{
    if n < 10 {
        seq![digit_char(n)]
    } else {
        digits_of(n / 10).push(digit_char(n % 10))
    }
}

/// The decimal rendering of `i`: a `-` for a negative value, then its digits.
pub open spec fn decimal_of(i: int) -> Seq<char> {
    if i < 0 {
        seq!['-'] + digits_of((-i) as nat)
    } else {
        digits_of(i as nat)
    }
}

/// Whether the non-breaking-space entity starts at position `i` of `s`.
pub open spec fn nbsp_at(s: Seq<char>, i: int) -> bool {
    0 <= i && i + 6 <= s.len() && s.subrange(i, i + 6) == nbsp_entity()
}

/// Whether `s` holds the non-breaking-space entity anywhere.
pub open spec fn has_nbsp(s: Seq<char>) -> bool {
    exists|i: int| #[trigger] nbsp_at(s, i)
}

proof fn lemma_digit_char(d: nat)
    requires
        d < 10,
    ensures
        is_digit(digit_char(d)),
        digit_char(d) as int - '0' as int == d,
{
}

proof fn lemma_digits_of(n: nat)
    ensures
        digits_of(n).len() > 0,
        all_digits(digits_of(n)),
        digits_value(digits_of(n)) == n,
        forall|k: int| 0 <= k < digits_of(n).len() ==> #[trigger] digits_of(n)[k] != '&',
    decreases n,
{
    let s = digits_of(n);
    if n >= 10 {
        lemma_digits_of(n / 10);
        lemma_digit_char(n % 10);
        assert(s.drop_last() =~= digits_of(n / 10));
        assert(s.last() == digit_char(n % 10));
        assert(digits_value(s) == 10 * digits_value(digits_of(n / 10)) + (n % 10) as int);
        assert(n == 10 * (n / 10) + n % 10);
    } else {
        lemma_digit_char(n);
        assert(s.drop_last() =~= Seq::<char>::empty());
        assert(digits_value(s.drop_last()) == 0);
        assert(digits_value(s) == (n as int));
    }
}

proof fn lemma_without_absent(s: Seq<char>)
    requires
        !has_nbsp(s),
    ensures
        without(s, nbsp_entity()) == s,
    decreases s.len(),
{
    if s.len() > 0 {
        if 6 <= s.len() && s.subrange(0, 6) == nbsp_entity() {
            assert(nbsp_at(s, 0));
        } else {
            let t = s.drop_first();
            assert(!has_nbsp(t)) by {
                if has_nbsp(t) {
                    let i = choose|i: int| #[trigger] nbsp_at(t, i);
                    assert(s.subrange(i + 1, i + 7) =~= t.subrange(i, i + 6));
                    assert(nbsp_at(s, i + 1));
                }
            }
            lemma_without_absent(t);
            assert(seq![s[0]] + t =~= s);
        }
    }
}

/// A guide row whose id cell is the decimal rendering of an id and whose name
/// cell holds no non-breaking-space entity gives back exactly that id and
/// that name.
pub proof fn lemma_cells_round_trip(id: i32, name: Seq<char>)
    requires
        !has_nbsp(name),
    ensures
        color_of_cells(decimal_of(id as int), name) == Some((name, id)),
{
    let s = decimal_of(id as int);
    let n: nat = if id < 0 {
        (-id) as nat
    } else {
        id as nat
    };
    lemma_digits_of(n);
    lemma_without_absent(name);
    assert(!has_nbsp(s)) by {
        if has_nbsp(s) {
            let i = choose|i: int| #[trigger] nbsp_at(s, i);
            assert(s.subrange(i, i + 6)[0] == '&');
            if id < 0 {
                assert(s[i] == '&');
                if i > 0 {
                    assert(s[i] == digits_of(n)[i - 1]);
                }
            } else {
                assert(s[i] == digits_of(n)[i]);
            }
        }
    }
    lemma_without_absent(s);
    if id < 0 {
        assert(s.drop_first() =~= digits_of(n));
    } else {
        assert(is_digit(s[0]));
    }
}

/// Relies on str::replace with an empty replacement: every non-overlapping
/// match of `pat`, from left to right, is removed.
#[verifier::external_body]
fn remove_all(s: &str, pat: &str) -> (r: String)
    requires
        pat@.len() > 0,
    ensures
        r@ == without(s@, pat@),
{
    s.replace(pat, "")
}

proof fn lemma_digits_nonneg(s: Seq<char>)
    requires
        all_digits(s),
    ensures
        digits_value(s) >= 0,
    decreases s.len(),
{
    if s.len() > 0 {
        let p = s.drop_last();
        assert(all_digits(p)) by {
            assert forall|i: int| 0 <= i < p.len() implies is_digit(#[trigger] p[i]) by {
                assert(p[i] == s[i]);
            }
        }
        lemma_digits_nonneg(p);
        assert(is_digit(s[s.len() - 1]));
    }
}

proof fn lemma_digits_prefix(s: Seq<char>, k: int)
    requires
        all_digits(s),
        0 <= k <= s.len(),
    ensures
        digits_value(s.subrange(0, k)) <= digits_value(s),
    decreases s.len(),
{
    if k == s.len() {
        assert(s.subrange(0, k) =~= s);
    } else {
        let p = s.drop_last();
        assert(all_digits(p)) by {
            assert forall|i: int| 0 <= i < p.len() implies is_digit(#[trigger] p[i]) by {
                assert(p[i] == s[i]);
            }
        }
        lemma_digits_prefix(p, k);
        lemma_digits_nonneg(p);
        assert(p.subrange(0, k) =~= s.subrange(0, k));
        assert(is_digit(s[s.len() - 1]));
    }
}

/// Reads a decimal integer: an optional `+` or `-` sign and one or more
/// ASCII digits, nothing else, with a value that fits in an `i32`.
fn parse_i32(s: &str) -> (r: Option<i32>)
    ensures
        r == decimal_i32(s@),
{
    let n: usize = s.unicode_len();
    if n == 0 {
        return None;
    }
    let c0 = s.get_char(0);
    let negative = c0 == '-';
    let start: usize = if c0 == '-' || c0 == '+' {
        1
    } else {
        0
    };
    let ghost body = s@.subrange(start as int, n as int);
    proof {
        if start == 1 {
            assert(body =~= s@.drop_first());
        } else {
            assert(body =~= s@);
        }
    }
    if start >= n {
        return None;
    }
    let mut v: u64 = 0;
    let mut i: usize = start;
    while i < n
        invariant
            start <= i <= n,
            n == s@.len(),
            body == s@.subrange(start as int, n as int),
            c0 == s@[0],
            negative == (c0 == '-'),
            start == (if c0 == '-' || c0 == '+' {
                1usize
            } else {
                0usize
            }),
            body == (if s@[0] == '-' || s@[0] == '+' {
                s@.drop_first()
            } else {
                s@
            }),
            all_digits(s@.subrange(start as int, i as int)),
            v == digits_value(s@.subrange(start as int, i as int)),
            v <= 2147483648,
        decreases n - i,
    {
        let c = s.get_char(i);
        if c < '0' || c > '9' {
            assert(body[i - start] == c);
            assert(!is_digit(body[i - start]));
            return None;
        }
        let ghost prefix = s@.subrange(start as int, i + 1);
        proof {
            assert(prefix.drop_last() =~= s@.subrange(start as int, i as int));
            assert(prefix.last() == c);
            assert(all_digits(prefix)) by {
                assert forall|k: int| 0 <= k < prefix.len() implies is_digit(#[trigger] prefix[k]) by {
                    if k < prefix.len() - 1 {
                        assert(prefix[k] == s@.subrange(start as int, i as int)[k]);
                    }
                }
            }
        }
        v = v * 10 + (c as u64 - '0' as u64);
        if v > 2147483648 {
            proof {
                if all_digits(body) {
                    lemma_digits_prefix(body, i + 1 - start);
                    assert(body.subrange(0, i + 1 - start) =~= prefix);
                    assert(digits_value(body) > 2147483648);
                }
            }
            return None;
        }
        i = i + 1;
    }
    proof {
        assert(s@.subrange(start as int, n as int) == body);
    }
    if negative {
        Some((0 - (v as i64)) as i32)
    } else if v <= 2147483647 {
        Some(v as i32)
    } else {
        None
    }
}

/// The HTML of a cell without its non-breaking-space entities.
fn strip_cell(text: &str) -> (r: String)
    ensures
        r@ == strip_nbsp(text@),
{
    let entity = "&nbsp;";
    proof {
        reveal_strlit("&nbsp;");
    }
    assert(entity@ =~= nbsp_entity());
    remove_all(text, entity)
}

/// The color id that the HTML of an id cell gives, if it gives one.
pub fn color_id_from_text(text: &str) -> (r: Option<i32>)
    ensures
        r == decimal_i32(strip_nbsp(text@)),
{
    let cleaned = strip_cell(text);
    parse_i32(cleaned.as_str())
}

/// The color name that the HTML of a name cell gives: that HTML without its
/// non-breaking-space entities, not trimmed otherwise.
pub fn color_name_from_text(text: &str) -> (r: String)
    ensures
        r@ == strip_nbsp(text@),
{
    strip_cell(text)
}

/// The (name, id) pair of one color-guide row, from the HTML of its id cell
/// and of its name cell; `None` where the id cell holds no integer.
pub fn color_from_cell_texts(id_text: &str, name_text: &str) -> (r: Option<(String, i32)>)
    ensures
        match r {
            Some((name, id)) => color_of_cells(id_text@, name_text@) == Some((name@, id)),
            None => color_of_cells(id_text@, name_text@) is None,
        },
{
    match color_id_from_text(id_text) {
        Some(id) => Some((color_name_from_text(name_text), id)),
        None => None,
    }
}

} // verus!
