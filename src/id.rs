//! Identifiers of users, hubs, channels and messages, and their canonical
//! text: 32 lowercase hexadecimal digits in groups of 8-4-4-4-12.
use vstd::prelude::*;

verus! {

/// An identifier, held as its 128-bit value.
#[derive(Clone, Copy, Debug, PartialEq, Eq, Structural, Hash)]
pub struct Id {
    pub value: u128,
}

pub open spec fn pow16(n: nat) -> nat
    decreases n,
{
    if n == 0 {
        1
    } else {
        16 * pow16((n - 1) as nat)
    }
}

pub open spec fn is_hex_digit(c: char) -> bool {
    ('0' <= c && c <= '9') || ('a' <= c && c <= 'f')
}

/// The lowercase digit for a value below 16.
pub open spec fn hex_char(d: int) -> char {
    if d < 10 {
        (d + 48) as char
    } else {
        (d + 87) as char
    }
}

pub open spec fn digit_value(c: char) -> int {
    if c <= '9' {
        c as int - 48
    } else {
        c as int - 87
    }
}

/// The last `n` hexadecimal digits of `v`, most significant first.
pub open spec fn hex_digits(v: nat, n: nat) -> Seq<char>
    decreases n,
{
    if n == 0 {
        Seq::empty()
    } else {
        hex_digits(v / 16, (n - 1) as nat).push(hex_char((v % 16) as int))
    }
}

/// The value of a run of hexadecimal digits, most significant first.
pub open spec fn hex_value(s: Seq<char>) -> nat
    decreases s.len(),
{
    if s.len() == 0 {
        0
    } else {
        (hex_value(s.drop_last()) * 16 + digit_value(s.last())) as nat
    }
}

/// Positions of the hyphens in the canonical text.
pub open spec fn is_hyphen_pos(i: int) -> bool {
    i == 8 || i == 13 || i == 18 || i == 23
}

/// Index among the digits of the character at position `i` of the text.
pub open spec fn digit_index(i: int) -> int {
    if i < 8 {
        i
    } else if i < 13 {
        i - 1
    } else if i < 18 {
        i - 2
    } else if i < 23 {
        i - 3
    } else {
        i - 4
    }
}

/// Number of digits among the first `i` characters of the text.
pub open spec fn digits_before(i: int) -> int {
    if i <= 8 {
        i
    } else if i <= 13 {
        i - 1
    } else if i <= 18 {
        i - 2
    } else if i <= 23 {
        i - 3
    } else {
        i - 4
    }
}

/// Position in the text of the digit with index `k`.
pub open spec fn digit_pos(k: int) -> int {
    if k < 8 {
        k
    } else if k < 12 {
        k + 1
    } else if k < 16 {
        k + 2
    } else if k < 20 {
        k + 3
    } else {
        k + 4
    }
}

/// The canonical (hyphenated, lowercase) text of an identifier.
pub open spec fn id_text(v: u128) -> Seq<char> {
    Seq::new(
        36,
        |i: int|
            if is_hyphen_pos(i) {
                '-'
            } else {
                hex_digits(v as nat, 32)[digit_index(i)]
            },
    )
}

pub proof fn lemma_pow16_32()
    ensures
        pow16(32) == u128::MAX as nat + 1,
{
    reveal_with_fuel(pow16, 33);
}

pub proof fn lemma_hex_char(d: int)
    requires
        0 <= d < 16,
    ensures
        is_hex_digit(hex_char(d)),
        digit_value(hex_char(d)) == d,
{
}

pub proof fn lemma_hex_digits_len(v: nat, n: nat)
    ensures
        hex_digits(v, n).len() == n,
        forall|k: int| 0 <= k < n ==> is_hex_digit(#[trigger] hex_digits(v, n)[k]),
    decreases n,
{
    if n > 0 {
        lemma_hex_digits_len(v / 16, (n - 1) as nat);
        lemma_hex_char((v % 16) as int);
    }
}

/// Printing `n` digits and reading them back gives the value.
pub proof fn lemma_hex_value_of_digits(v: nat, n: nat)
    requires
        v < pow16(n),
    ensures
        hex_value(hex_digits(v, n)) == v,
    decreases n,
{
    if n > 0 {
        let p = pow16((n - 1) as nat);
        assert(v / 16 < p) by (nonlinear_arith)
            requires
                v < 16 * p,
        ;
        lemma_hex_value_of_digits(v / 16, (n - 1) as nat);
        lemma_hex_char((v % 16) as int);
        let s = hex_digits(v, n);
        assert(s.drop_last() =~= hex_digits(v / 16, (n - 1) as nat));
        assert((v / 16) * 16 + v % 16 == v) by (nonlinear_arith);
    }
}

/// Reading digits and printing the value back gives the digits.
pub proof fn lemma_digits_of_hex_value(s: Seq<char>)
    requires
        forall|k: int| 0 <= k < s.len() ==> is_hex_digit(#[trigger] s[k]),
    ensures
        hex_value(s) < pow16(s.len()),
        hex_digits(hex_value(s), s.len()) =~= s,
    decreases s.len(),
{
    if s.len() > 0 {
        let t = s.drop_last();
        assert forall|k: int| 0 <= k < t.len() implies is_hex_digit(#[trigger] t[k]) by {
            assert(t[k] == s[k]);
        }
        lemma_digits_of_hex_value(t);
        let a = hex_value(t);
        let d = digit_value(s.last());
        assert(is_hex_digit(s[s.len() - 1]));
        assert(0 <= d < 16);
        let p = pow16(t.len());
        assert(a * 16 + d < 16 * p) by (nonlinear_arith)
            requires
                a < p,
                0 <= d < 16,
        ;
        assert((a * 16 + d) / 16 == a && (a * 16 + d) % 16 == d) by (nonlinear_arith)
            requires
                0 <= d < 16,
                a >= 0,
        ;
        assert(hex_char(d) == s.last());
        assert(s =~= t.push(s.last()));
    }
}

pub proof fn lemma_id_text_hex(v: u128)
    ensures
        id_text(v).len() == 36,
        forall|i: int|
            0 <= i < 36 && !is_hyphen_pos(i) ==> is_hex_digit(#[trigger] id_text(v)[i]),
{
    lemma_hex_digits_len(v as nat, 32);
}

fn hex_char_of(d: u128) -> (c: char)
    requires
        d < 16,
    ensures
        c == hex_char(d as int),
{
    if d < 10 {
        ((d as u8) + 48) as char
    } else {
        ((d as u8) + 87) as char
    }
}

fn push_hex_digits(v: u128, n: usize, out: &mut Vec<char>)
    ensures
        final(out)@ == old(out)@ + hex_digits(v as nat, n as nat),
    decreases n,
{
    if n == 0 {
        assert(old(out)@ + hex_digits(v as nat, 0) =~= old(out)@);
    } else {
        push_hex_digits(v / 16, n - 1, out);
        out.push(hex_char_of(v % 16));
        assert(old(out)@ + hex_digits(v as nat, n as nat) =~= old(out)@ + hex_digits(
            (v / 16) as nat,
            (n - 1) as nat,
        ).push(hex_char((v % 16) as int)));
    }
}

impl Id {
    /// The canonical text of the identifier.
    pub fn to_text(&self) -> (r: String)
        ensures
            r@ == id_text(self.value),
    {
        let mut out: Vec<char> = Vec::new();
        self.write_text(&mut out);
        assert(out@ =~= id_text(self.value));
        crate::text::string_of(out)
    }

    /// Reads the canonical text of an identifier; anything else is refused.
    pub fn parse(s: &str) -> (r: Option<Id>)
        ensures
            r matches Some(id) ==> id_text(id.value) == s@,
            r is None ==> forall|v: u128| id_text(v) != s@,
            forall|v: u128| #[trigger] id_text(v) == s@ ==> r == Some(Id { value: v }),
    {
        let t = crate::text::chars_of(s);
        let r = Id::parse_text(&t);
        proof {
            assert forall|v: u128| #[trigger] id_text(v) == s@ implies r == Some(Id { value: v }) by {
                lemma_id_text_injective(v, r.unwrap().value);
            }
        }
        r
    }

    /// Appends the canonical text of the identifier.
    pub fn write_text(&self, out: &mut Vec<char>)
        ensures
            final(out)@ == old(out)@ + id_text(self.value),
    {
        let mut digits: Vec<char> = Vec::new();
        push_hex_digits(self.value, 32, &mut digits);
        assert(digits@ =~= hex_digits(self.value as nat, 32));
        proof {
            lemma_hex_digits_len(self.value as nat, 32);
        }
        let ghost start = out@;
        let mut i: usize = 0;
        while i < 36
            invariant
                i <= 36,
                digits@ == hex_digits(self.value as nat, 32),
                digits@.len() == 32,
                start == old(out)@,
                out@ == start + id_text(self.value).take(i as int),
            decreases 36 - i,
        {
            let c = if i == 8 || i == 13 || i == 18 || i == 23 {
                '-'
            } else {
                let k: usize = if i < 8 {
                    i
                } else if i < 13 {
                    i - 1
                } else if i < 18 {
                    i - 2
                } else if i < 23 {
                    i - 3
                } else {
                    i - 4
                };
                digits[k]
            };
            out.push(c);
            assert(id_text(self.value).take(i + 1) =~= id_text(self.value).take(i as int).push(c));
            i = i + 1;
        }
        assert(id_text(self.value).take(36) =~= id_text(self.value));
    }

    /// Reads the canonical text of an identifier; anything else is refused.
    pub fn parse_text(t: &Vec<char>) -> (r: Option<Id>)
        ensures
            r matches Some(id) ==> id_text(id.value) == t@,
            r is None ==> forall|v: u128| id_text(v) != t@,
    {
        if t.len() != 36 {
            proof {
                assert forall|v: u128| id_text(v) != t@ by {
                    lemma_id_text_hex(v);
                }
            }
            return None;
        }
        let ghost mut ds: Seq<char> = Seq::empty();
        let mut acc: u128 = 0;
        let mut i: usize = 0;
        while i < 36
            invariant
                t@.len() == 36,
                i <= 36,
                ds.len() == digits_before(i as int),
                forall|k: int| 0 <= k < ds.len() ==> is_hex_digit(#[trigger] ds[k]),
                forall|k: int| 0 <= k < ds.len() ==> #[trigger] ds[k] == t@[digit_pos(k)],
                forall|j: int| 0 <= j < i && is_hyphen_pos(j) ==> t@[j] == '-',
                acc == hex_value(ds),
            decreases 36 - i,
        {
            let c = t[i];
            if i == 8 || i == 13 || i == 18 || i == 23 {
                if c != '-' {
                    proof {
                        assert forall|v: u128| id_text(v) != t@ by {
                            if id_text(v) == t@ {
                                assert(id_text(v)[i as int] == '-');
                            }
                        }
                    }
                    return None;
                }
            } else {
                let d: u128 = if '0' <= c && c <= '9' {
                    (c as u32 - 48) as u128
                } else if 'a' <= c && c <= 'f' {
                    (c as u32 - 87) as u128
                } else {
                    proof {
                        assert forall|v: u128| id_text(v) != t@ by {
                            if id_text(v) == t@ {
                                lemma_id_text_hex(v);
                                assert(is_hex_digit(id_text(v)[i as int]));
                            }
                        }
                    }
                    return None;
                };
                proof {
                    lemma_digits_of_hex_value(ds);
                    lemma_hex_digits_len(hex_value(ds), ds.len());
                    lemma_pow16_32();
                    assert(ds.len() < 32);
                    lemma_pow16_mono(ds.len() + 1, 32);
                    assert(acc * 16 + d < pow16(ds.len() + 1)) by (nonlinear_arith)
                        requires
                            acc < pow16(ds.len()),
                            d < 16,
                            pow16(ds.len() + 1) == 16 * pow16(ds.len()),
                    ;
                }
                acc = acc * 16 + d;
                proof {
                    let old_ds = ds;
                    ds = ds.push(c);
                    assert(ds.drop_last() =~= old_ds);
                }
            }
            i = i + 1;
        }
        proof {
            assert(ds.len() == 32);
            lemma_digits_of_hex_value(ds);
            assert forall|j: int| 0 <= j < 36 implies id_text(acc)[j] == t@[j] by {
                if !is_hyphen_pos(j) {
                    assert(ds[digit_index(j)] == t@[digit_pos(digit_index(j))]);
                }
            }
            assert(id_text(acc) =~= t@);
        }
        Some(Id { value: acc })
    }
}

pub proof fn lemma_pow16_mono(a: nat, b: nat)
    requires
        a <= b,
    ensures
        pow16(a) <= pow16(b),
    decreases b,
{
    if a < b {
        lemma_pow16_mono(a, (b - 1) as nat);
    }
}

/// Two identifiers with the same canonical text are the same.
pub proof fn lemma_id_text_injective(v: u128, w: u128)
    requires
        id_text(v) == id_text(w),
    ensures
        v == w,
{
    lemma_hex_digits_len(v as nat, 32);
    lemma_hex_digits_len(w as nat, 32);
    let hv = hex_digits(v as nat, 32);
    let hw = hex_digits(w as nat, 32);
    assert forall|k: int| 0 <= k < 32 implies hv[k] == hw[k] by {
        assert(!is_hyphen_pos(digit_pos(k)) && digit_index(digit_pos(k)) == k);
        assert(id_text(v)[digit_pos(k)] == hv[k]);
        assert(id_text(w)[digit_pos(k)] == hw[k]);
    }
    assert(hv =~= hw);
    lemma_pow16_32();
    lemma_hex_value_of_digits(v as nat, 32);
    lemma_hex_value_of_digits(w as nat, 32);
}

} // verus!
