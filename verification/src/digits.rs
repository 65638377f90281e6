//! Decimal notation for unsigned integers: the mathematical encoding
//! ([`dec_of`]) and evaluation ([`val_of`]) of digit strings, an executable
//! emitter, and an executable reader that recognizes exactly the canonical
//! (no leading zero, in range) decimal form.

use vstd::prelude::*;

verus! {

/// The character for a single decimal digit value (`d < 10`).
pub open spec fn digit_char(d: nat) -> char {
    if d == 0 {
        '0'
    } else if d == 1 {
        '1'
    } else if d == 2 {
        '2'
    } else if d == 3 {
        '3'
    } else if d == 4 {
        '4'
    } else if d == 5 {
        '5'
    } else if d == 6 {
        '6'
    } else if d == 7 {
        '7'
    } else if d == 8 {
        '8'
    } else {
        '9'
    }
}

/// Whether `c` is a decimal digit character.
pub open spec fn is_digit(c: char) -> bool {
    c == '0' || c == '1' || c == '2' || c == '3' || c == '4' || c == '5' || c == '6' || c == '7'
        || c == '8' || c == '9'
}

/// The numeric value of a digit character (meaningful only when
/// `is_digit(c)` holds).
pub open spec fn digit_val(c: char) -> nat {
    if c == '0' {
        0
    } else if c == '1' {
        1
    } else if c == '2' {
        2
    } else if c == '3' {
        3
    } else if c == '4' {
        4
    } else if c == '5' {
        5
    } else if c == '6' {
        6
    } else if c == '7' {
        7
    } else if c == '8' {
        8
    } else {
        9
    }
}

/// The decimal notation of `n`: most significant digit first, no leading
/// zeros (`0` itself is written as the single character `'0'`).
pub open spec fn dec_of(n: nat) -> Seq<char>
    decreases n,
{
    if n < 10 {
        seq![digit_char(n)]
    } else {
        dec_of(n / 10).push(digit_char(n % 10))
    }
}

/// The numeric value of a string of digit characters, most significant first.
pub open spec fn val_of(ds: Seq<char>) -> nat
    decreases ds.len(),
{
    if ds.len() == 0 {
        0
    } else {
        10 * val_of(ds.drop_last()) + digit_val(ds.last())
    }
}

/// Every character of `ds` is a decimal digit.
pub open spec fn all_digits(ds: Seq<char>) -> bool {
    forall|k: int| 0 <= k < ds.len() ==> is_digit(#[trigger] ds[k])
}

/// The decimal notation of any number is a nonempty digit string whose first
/// character is `'0'` exactly when the number is zero.
pub proof fn lemma_dec_of_digits(n: nat)
    ensures
        dec_of(n).len() >= 1,
        all_digits(dec_of(n)),
        n > 0 ==> dec_of(n)[0] != '0',
        n == 0 ==> dec_of(n) == seq!['0'],
    decreases n,
{
    if n < 10 {
        assert(is_digit(dec_of(n)[0]));
    } else {
        lemma_dec_of_digits(n / 10);
        assert(dec_of(n) == dec_of(n / 10).push(digit_char(n % 10)));
        assert(is_digit(digit_char(n % 10)));
        assert forall|k: int| 0 <= k < dec_of(n).len() implies is_digit(#[trigger] dec_of(n)[k]) by {
            if k < dec_of(n / 10).len() {
                assert(dec_of(n)[k] == dec_of(n / 10)[k]);
            } else {
                assert(dec_of(n)[k] == digit_char(n % 10));
            }
        }
        assert(dec_of(n)[0] == dec_of(n / 10)[0]);
    }
}

/// Evaluating the decimal notation of `n` gives back `n`.
pub proof fn lemma_val_of_dec(n: nat)
    ensures
        val_of(dec_of(n)) == n,
    decreases n,
{
    if n < 10 {
        assert(dec_of(n) == seq![digit_char(n)]);
        assert(seq![digit_char(n)].drop_last() =~= Seq::<char>::empty());
        assert(val_of(dec_of(n)) == 10 * val_of(Seq::<char>::empty()) + digit_val(digit_char(n)));
    } else {
        lemma_val_of_dec(n / 10);
        let ds = dec_of(n / 10).push(digit_char(n % 10));
        assert(ds.drop_last() =~= dec_of(n / 10));
        assert(ds.last() == digit_char(n % 10));
        assert(val_of(ds) == 10 * (n / 10) + n % 10);
    }
}

/// A nonempty digit string that does not start with `'0'` evaluates to a
/// positive number.
pub proof fn lemma_val_of_pos(ds: Seq<char>)
    requires
        all_digits(ds),
        ds.len() >= 1,
        ds[0] != '0',
    ensures
        val_of(ds) >= 1,
    decreases ds.len(),
{
    if ds.len() == 1 {
        assert(is_digit(ds[0]));
        assert(ds.last() == ds[0]);
    } else {
        let dl = ds.drop_last();
        assert(dl[0] == ds[0]);
        assert(all_digits(dl)) by {
            assert forall|k: int| 0 <= k < dl.len() implies is_digit(#[trigger] dl[k]) by {
                assert(dl[k] == ds[k]);
            }
        }
        lemma_val_of_pos(dl);
    }
}

/// A canonical digit string (nonempty, no leading zero unless it is exactly
/// `"0"`, value in `u64` range) is the decimal notation of its value.
pub proof fn lemma_dec_of_val(ds: Seq<char>)
    requires
        all_digits(ds),
        ds.len() >= 1,
        ds[0] == '0' ==> ds.len() == 1,
        val_of(ds) <= u64::MAX,
    ensures
        dec_of(val_of(ds)) == ds,
    decreases ds.len(),
{
    assert(is_digit(ds.last()));
    assert(digit_val(ds.last()) < 10);
    if ds.len() == 1 {
        assert(ds.drop_last() =~= Seq::<char>::empty());
        assert(val_of(Seq::<char>::empty()) == 0);
        assert(ds.last() == ds[0]);
        assert(val_of(ds) == digit_val(ds[0]));
        assert(is_digit(ds[0]));
        assert(digit_char(digit_val(ds[0])) == ds[0]);
        assert(dec_of(val_of(ds)) =~= ds);
    } else {
        let dl = ds.drop_last();
        assert(dl[0] == ds[0]);
        assert(all_digits(dl)) by {
            assert forall|k: int| 0 <= k < dl.len() implies is_digit(#[trigger] dl[k]) by {
                assert(dl[k] == ds[k]);
            }
        }
        assert(ds[0] != '0');
        lemma_val_of_pos(dl);
        let v = val_of(ds);
        assert(v == 10 * val_of(dl) + digit_val(ds.last()));
        assert(val_of(dl) <= u64::MAX);
        lemma_dec_of_val(dl);
        assert(v >= 10);
        assert(v / 10 == val_of(dl) && v % 10 == digit_val(ds.last())) by {
            vstd::arithmetic::div_mod::lemma_fundamental_div_mod_converse(
                v as int,
                10,
                val_of(dl) as int,
                digit_val(ds.last()) as int,
            );
        }
        assert(digit_char(digit_val(ds.last())) == ds.last());
        assert(dec_of(v) == dec_of(val_of(dl)).push(ds.last()));
        assert(dec_of(v) =~= ds);
    }
}

/// Evaluation never shrinks when a digit string is extended on the right.
pub proof fn lemma_val_of_mono(s: Seq<char>, i: int, k: int, j: int)
    requires
        0 <= i <= k <= j <= s.len(),
    ensures
        val_of(s.subrange(i, k)) <= val_of(s.subrange(i, j)),
    decreases j - k,
{
    if k < j {
        lemma_val_of_mono(s, i, k + 1, j);
        let a = s.subrange(i, k);
        let b = s.subrange(i, k + 1);
        assert(b.drop_last() =~= a);
        assert(val_of(b) == 10 * val_of(a) + digit_val(b.last()));
    }
}

/// The first position at or after `j` whose character is not a decimal digit
/// (or the end of the string).
pub open spec fn digit_end(s: Seq<char>, j: int) -> int
    decreases s.len() - j,
{
    if !(0 <= j < s.len()) {
        j
    } else if !is_digit(s[j]) {
        j
    } else {
        digit_end(s, j + 1)
    }
}

/// Basic bounds and meaning of [`digit_end`].
pub proof fn lemma_digit_end(s: Seq<char>, j: int)
    requires
        0 <= j <= s.len(),
    ensures
        j <= digit_end(s, j) <= s.len(),
        forall|m: int| j <= m < digit_end(s, j) ==> is_digit(#[trigger] s[m]),
        digit_end(s, j) == s.len() || !is_digit(s[digit_end(s, j)]),
    decreases s.len() - j,
{
    if j < s.len() && is_digit(s[j]) {
        lemma_digit_end(s, j + 1);
    }
}

/// A maximal run of digits starting at `i` pins down [`digit_end`].
pub proof fn lemma_digit_end_pins(s: Seq<char>, i: int, j: int)
    requires
        0 <= i <= j <= s.len(),
        forall|m: int| i <= m < j ==> is_digit(#[trigger] s[m]),
        j == s.len() || !is_digit(s[j]),
    ensures
        digit_end(s, i) == j,
    decreases j - i,
{
    if i < j {
        lemma_digit_end_pins(s, i + 1, j);
    }
}

/// What the reader accepts at position `i` of `s`: the value and the position
/// one past the digits, for a nonempty maximal digit run in canonical form
/// (no leading zero, value within `u64`); nothing otherwise.
pub open spec fn spec_parse_num(s: Seq<char>, i: int) -> Option<(u64, int)> {
    let j = digit_end(s, i);
    if j == i {
        None
    } else if s[i] == '0' && j != i + 1 {
        None
    } else if val_of(s.subrange(i, j)) > u64::MAX {
        None
    } else {
        Some((val_of(s.subrange(i, j)) as u64, j))
    }
}

/// The decimal notation of `v` sitting at position `i`, followed by a
/// non-digit (or the end), is read back as exactly `v`.
pub proof fn lemma_parse_num_at(s: Seq<char>, i: int, v: u64)
    requires
        0 <= i,
        i + dec_of(v as nat).len() <= s.len(),
        s.subrange(i, i + dec_of(v as nat).len() as int) == dec_of(v as nat),
        i + dec_of(v as nat).len() == s.len() || !is_digit(s[i + dec_of(v as nat).len()]),
    ensures
        spec_parse_num(s, i) == Some((v, i + dec_of(v as nat).len() as int)),
{
    let d = dec_of(v as nat);
    let j = i + d.len() as int;
    lemma_dec_of_digits(v as nat);
    assert forall|m: int| i <= m < j implies is_digit(#[trigger] s[m]) by {
        assert(s[m] == s.subrange(i, j)[m - i]);
        assert(d[m - i] == s.subrange(i, j)[m - i]);
    }
    lemma_digit_end_pins(s, i, j);
    lemma_val_of_dec(v as nat);
    assert(s[i] == d[0]);
    if v == 0 {
        assert(d == seq!['0']);
        assert(j == i + 1);
    } else {
        assert(s[i] != '0');
    }
}

/// Whatever the reader accepts is the decimal notation of its value, sitting
/// exactly on the consumed range.
pub proof fn lemma_parse_num_inv(s: Seq<char>, i: int, v: u64, j: int)
    requires
        0 <= i <= s.len(),
        spec_parse_num(s, i) == Some((v, j)),
    ensures
        i < j <= s.len(),
        s.subrange(i, j) == dec_of(v as nat),
        j == s.len() || !is_digit(s[j]),
{
    lemma_digit_end(s, i);
    let ds = s.subrange(i, j);
    assert(all_digits(ds)) by {
        assert forall|t: int| 0 <= t < ds.len() implies is_digit(#[trigger] ds[t]) by {
            assert(ds[t] == s[i + t]);
        }
    }
    assert(ds[0] == s[i]);
    lemma_dec_of_val(ds);
}

/// Translates one digit character; yields nothing on any other character.
pub fn digit_of(c: char) -> (r: Option<u64>)
    ensures
        r is Some <==> is_digit(c),
        r matches Some(d) ==> d == digit_val(c) && d < 10,
{
    match c {
        '0' => Some(0),
        '1' => Some(1),
        '2' => Some(2),
        '3' => Some(3),
        '4' => Some(4),
        '5' => Some(5),
        '6' => Some(6),
        '7' => Some(7),
        '8' => Some(8),
        '9' => Some(9),
        _ => None,
    }
}

/// Appends the decimal notation of `n` to `out`.
pub fn append_dec(out: &mut String, n: u64)
    ensures
        final(out)@ == old(out)@ + dec_of(n as nat),
    decreases n,
{
    if n >= 10 {
        append_dec(out, n / 10);
    }
    let d = n % 10;
    proof {
        reveal_strlit("0");
        reveal_strlit("1");
        reveal_strlit("2");
        reveal_strlit("3");
        reveal_strlit("4");
        reveal_strlit("5");
        reveal_strlit("6");
        reveal_strlit("7");
        reveal_strlit("8");
        reveal_strlit("9");
    }
    match d {
        0 => out.append("0"),
        1 => out.append("1"),
        2 => out.append("2"),
        3 => out.append("3"),
        4 => out.append("4"),
        5 => out.append("5"),
        6 => out.append("6"),
        7 => out.append("7"),
        8 => out.append("8"),
        _ => out.append("9"),
    }
    proof {
        if n < 10 {
            assert(out@ =~= old(out)@ + dec_of(n as nat));
        } else {
            assert(out@ =~= old(out)@ + dec_of((n / 10) as nat).push(digit_char((n % 10) as nat)));
        }
    }
}

/// Reads the decimal number starting at character position `i` of `s`,
/// returning its value and the position one past its digits; recognizes
/// exactly what [`spec_parse_num`] describes.
pub fn parse_u64_at(s: &str, i: usize) -> (r: Option<(u64, usize)>)
    requires
        i <= s@.len(),
    ensures
        r matches Some((v, j)) ==> i < j <= s@.len() && spec_parse_num(s@, i as int) == Some(
            (v, j as int),
        ),
        r is None ==> spec_parse_num(s@, i as int) is None,
{
    let len = s.unicode_len();
    proof {
        lemma_digit_end(s@, i as int);
    }
    if i == len {
        return None;
    }
    let c0 = s.get_char(i);
    if digit_of(c0).is_none() {
        return None;
    }
    if c0 == '0' {
        if i + 1 < len && digit_of(s.get_char(i + 1)).is_some() {
            proof {
                lemma_digit_end(s@, i as int + 2);
                assert(digit_end(s@, i as int) == digit_end(s@, i as int + 1));
                assert(digit_end(s@, i as int + 1) == digit_end(s@, i as int + 2));
                assert(digit_end(s@, i as int) >= i + 2);
            }
            return None;
        }
        proof {
            lemma_digit_end_pins(s@, i as int, i as int + 1);
            let ds = s@.subrange(i as int, i as int + 1);
            assert(ds.drop_last() =~= Seq::<char>::empty());
            assert(val_of(Seq::<char>::empty()) == 0);
            assert(ds.last() == '0');
            assert(val_of(ds) == 0);
        }
        return Some((0, i + 1));
    }
    // Scan the maximal digit run [i, j).
    let mut j = i;
    loop
        invariant
            i <= j <= len,
            len == s@.len(),
            forall|m: int| i <= m < j ==> is_digit(#[trigger] s@[m]),
        ensures
            i <= j <= len,
            digit_end(s@, i as int) == j as int,
        decreases len - j,
    {
        if j == len {
            proof {
                lemma_digit_end_pins(s@, i as int, j as int);
            }
            break;
        }
        if digit_of(s.get_char(j)).is_none() {
            proof {
                lemma_digit_end_pins(s@, i as int, j as int);
            }
            break;
        }
        j = j + 1;
    }
    // Convert the run, watching for overflow.
    let ghost full = s@.subrange(i as int, j as int);
    let mut acc: u64 = 0;
    let mut k = i;
    while k < j
        invariant
            i <= k <= j <= len,
            len == s@.len(),
            digit_end(s@, i as int) == j as int,
            forall|m: int| i <= m < j ==> is_digit(#[trigger] s@[m]),
            full == s@.subrange(i as int, j as int),
            acc as nat == val_of(s@.subrange(i as int, k as int)),
            i < j,
            s@[i as int] != '0',
        decreases j - k,
    {
        let d = match digit_of(s.get_char(k)) {
            Some(d) => d,
            None => {
                proof {
                    assert(false);
                }
                0
            },
        };
        proof {
            let pre = s@.subrange(i as int, k as int);
            let ext = s@.subrange(i as int, k as int + 1);
            assert(ext.drop_last() =~= pre);
            assert(ext.last() == s@[k as int]);
            assert(val_of(ext) == 10 * (acc as nat) + d as nat);
            lemma_val_of_mono(s@, i as int, k as int + 1, j as int);
        }
        if acc > (u64::MAX - d) / 10 {
            proof {
                assert(10 * (acc as nat) + d as nat > u64::MAX) by {
                    vstd::arithmetic::div_mod::lemma_fundamental_div_mod(
                        (u64::MAX - d) as int,
                        10,
                    );
                }
                assert(val_of(full) > u64::MAX);
            }
            return None;
        }
        proof {
            assert(10 * (acc as nat) + d as nat <= u64::MAX) by {
                vstd::arithmetic::div_mod::lemma_fundamental_div_mod((u64::MAX - d) as int, 10);
            }
        }
        acc = acc * 10 + d;
        k = k + 1;
    }
    proof {
        assert(s@.subrange(i as int, k as int) == full);
        assert(full[0] == s@[i as int]);
    }
    Some((acc, j))
}

} // verus!
