//! Text pieces of the wire format: JSON string literals as compact JSON
//! writes them, literal punctuation, and conversions between `String` and
//! character vectors.
use crate::id::{digit_value, hex_char, is_hex_digit};
use vstd::prelude::*;

verus! {

/// Whether a character must be written with an escape inside a string literal.
pub open spec fn is_control(c: char) -> bool {
    (c as u32) < 32
}

/// How one character is written inside a string literal.
pub open spec fn escape_char(c: char) -> Seq<char> {
    if c == '"' {
        seq!['\\', '"']
    } else if c == '\\' {
        seq!['\\', '\\']
    } else if c as u32 == 8 {
        seq!['\\', 'b']
    } else if c as u32 == 12 {
        seq!['\\', 'f']
    } else if c == '\n' {
        seq!['\\', 'n']
    } else if c == '\r' {
        seq!['\\', 'r']
    } else if c == '\t' {
        seq!['\\', 't']
    } else if is_control(c) {
        seq!['\\', 'u', '0', '0', hex_char(c as int / 16), hex_char(c as int % 16)]
    } else {
        seq![c]
    }
}

/// The body of a string literal for `t`.
pub open spec fn escape(t: Seq<char>) -> Seq<char>
    decreases t.len(),
{
    if t.len() == 0 {
        Seq::empty()
    } else {
        escape_char(t[0]) + escape(t.skip(1))
    }
}

/// The string literal for `t`, quotes included.
pub open spec fn quoted(t: Seq<char>) -> Seq<char> {
    seq!['"'] + escape(t) + seq!['"']
}

/// Whether `piece` stands in `s` at position `pos`.
pub open spec fn stands_at(s: Seq<char>, pos: int, piece: Seq<char>) -> bool {
    0 <= pos && pos + piece.len() <= s.len() && s.subrange(pos, pos + piece.len()) == piece
}

/// Reads one escaped character at the start of `s`: the character and the
/// number of characters that it takes.
spec fn unescape_one(s: Seq<char>) -> Option<(char, int)> {
    if s.len() == 0 {
        None
    } else if s[0] == '\\' {
        if s.len() < 2 {
            None
        } else if s[1] == '"' {
            Some(('"', 2))
        } else if s[1] == '\\' {
            Some(('\\', 2))
        } else if s[1] == 'b' {
            Some((8u8 as char, 2))
        } else if s[1] == 'f' {
            Some((12u8 as char, 2))
        } else if s[1] == 'n' {
            Some(('\n', 2))
        } else if s[1] == 'r' {
            Some(('\r', 2))
        } else if s[1] == 't' {
            Some(('\t', 2))
        } else if s[1] == 'u' && s.len() >= 6 && s[2] == '0' && s[3] == '0' && (s[4] == '0'
            || s[4] == '1') && is_hex_digit(s[5]) {
            let v = digit_value(s[4]) * 16 + digit_value(s[5]);
            if v == 8 || v == 9 || v == 10 || v == 12 || v == 13 {
                None
            } else {
                Some(((v as u8) as char, 6))
            }
        } else {
            None
        }
    } else if s[0] == '"' || is_control(s[0]) {
        None
    } else {
        Some((s[0], 1))
    }
}

/// Reads the rest of a string literal after its opening quote: the text and
/// the number of characters up to and including the closing quote.
spec fn unquote(s: Seq<char>) -> Option<(Seq<char>, int)>
    decreases s.len(),
{
    if s.len() == 0 {
        None
    } else if s[0] == '"' {
        Some((Seq::empty(), 1))
    } else {
        match unescape_one(s) {
            None => None,
            Some((c, k)) => if 0 < k <= s.len() {
                prepend(seq![c], k, unquote(s.skip(k)))
            } else {
                None
            },
        }
    }
}

spec fn prepend(o: Seq<char>, m: int, r: Option<(Seq<char>, int)>) -> Option<(Seq<char>, int)> {
    match r {
        Some((t, n)) => Some((o + t, n + m)),
        None => None,
    }
}

proof fn lemma_unescape_one_of(c: char, rest: Seq<char>)
    ensures
        unescape_one(escape_char(c) + rest) == Some((c, escape_char(c).len() as int)),
        escape_char(c)[0] != '"',
        escape_char(c).len() >= 1,
{
    let e = escape_char(c);
    let s = e + rest;
    if is_control(c) && !(c as u32 == 8 || c as u32 == 12 || c == '\n' || c == '\r' || c
        == '\t') {
        let hi = c as int / 16;
        let lo = c as int % 16;
        assert(0 <= hi < 2 && 0 <= lo < 16);
        crate::id::lemma_hex_char(hi);
        crate::id::lemma_hex_char(lo);
        assert(s[4] == hex_char(hi) && s[5] == hex_char(lo));
        assert(hi == 0 ==> s[4] == '0');
        assert(hi == 1 ==> s[4] == '1');
        assert(hi * 16 + lo == c as int);
    }
    assert(s[0] == e[0]);
    if e.len() >= 2 {
        assert(s[1] == e[1]);
    }
}

proof fn lemma_unescape_one_sound(s: Seq<char>)
    requires
        unescape_one(s) is Some,
    ensures
        ({
            let (c, k) = unescape_one(s).unwrap();
            &&& 0 < k <= s.len()
            &&& s.take(k) == escape_char(c)
        }),
{
    let (c, k) = unescape_one(s).unwrap();
    if s[0] == '\\' && s[1] == 'u' {
        let v = digit_value(s[4]) * 16 + digit_value(s[5]);
        assert(0 <= digit_value(s[5]) < 16);
        assert(c as int == v);
        assert(v / 16 == digit_value(s[4]) && v % 16 == digit_value(s[5]));
        assert(hex_char(digit_value(s[5])) == s[5]);
        assert(hex_char(digit_value(s[4])) == s[4]);
        assert(s.take(k) =~= escape_char(c));
    } else {
        assert(s.take(k) =~= escape_char(c));
    }
}

proof fn lemma_unquote_of(t: Seq<char>, rest: Seq<char>)
    ensures
        unquote(escape(t) + seq!['"'] + rest) == Some((t, escape(t).len() + 1 as int)),
    decreases t.len(),
{
    let s = escape(t) + seq!['"'] + rest;
    if t.len() == 0 {
        assert(s[0] == '"');
        assert(t =~= Seq::<char>::empty());
    } else {
        let c = t[0];
        let e = escape_char(c);
        let tail = escape(t.skip(1)) + seq!['"'] + rest;
        assert(s =~= e + tail);
        lemma_unescape_one_of(c, tail);
        assert(s[0] == e[0]);
        assert(s.skip(e.len() as int) =~= tail);
        lemma_unquote_of(t.skip(1), rest);
        assert(seq![c] + t.skip(1) =~= t);
    }
}

proof fn lemma_unquote_sound(s: Seq<char>)
    requires
        unquote(s) is Some,
    ensures
        ({
            let (t, n) = unquote(s).unwrap();
            &&& 0 < n <= s.len()
            &&& s.take(n) == escape(t) + seq!['"']
        }),
    decreases s.len(),
{
    let (t, n) = unquote(s).unwrap();
    if s[0] == '"' {
        assert(s.take(1) =~= escape(t) + seq!['"']);
    } else {
        let (c, k) = unescape_one(s).unwrap();
        lemma_unescape_one_sound(s);
        lemma_unquote_sound(s.skip(k));
        let (u, m) = unquote(s.skip(k)).unwrap();
        assert(t == seq![c] + u);
        assert(t[0] == c);
        assert(t.skip(1) =~= u);
        assert(s.take(n) =~= s.take(k) + s.skip(k).take(m));
    }
}

/// Writing one more character extends the escaped text by that character's escape.
pub proof fn lemma_escape_push(t: Seq<char>, c: char)
    ensures
        escape(t.push(c)) == escape(t) + escape_char(c),
    decreases t.len(),
{
    if t.len() == 0 {
        assert(t.push(c).skip(1) =~= Seq::<char>::empty());
        assert(escape(Seq::<char>::empty()) =~= Seq::<char>::empty());
        assert(t.push(c)[0] == c);
        assert(escape(t) =~= Seq::<char>::empty());
        assert(escape(t.push(c)) =~= escape(t) + escape_char(c));
    } else {
        assert(t.push(c).skip(1) =~= t.skip(1).push(c));
        lemma_escape_push(t.skip(1), c);
        assert(escape(t.push(c)) =~= escape(t) + escape_char(c));
    }
}

fn unescape_one_at(s: &Vec<char>, j: usize) -> (r: Option<(char, usize)>)
    requires
        j < s@.len(),
    ensures
        match unescape_one(s@.skip(j as int)) {
            Some((c, k)) => r == Some((c, k as usize)) && 0 <= k,
            None => r is None,
        },
{
    let ghost d = s@.skip(j as int);
    let n = s.len() - j;
    let c0 = s[j];
    if c0 == '\\' {
        if n < 2 {
            return None;
        }
        let c1 = s[j + 1];
        if c1 == '"' {
            Some(('"', 2))
        } else if c1 == '\\' {
            Some(('\\', 2))
        } else if c1 == 'b' {
            Some((8u8 as char, 2))
        } else if c1 == 'f' {
            Some((12u8 as char, 2))
        } else if c1 == 'n' {
            Some(('\n', 2))
        } else if c1 == 'r' {
            Some(('\r', 2))
        } else if c1 == 't' {
            Some(('\t', 2))
        } else if c1 == 'u' && n >= 6 && s[j + 2] == '0' && s[j + 3] == '0' && (s[j + 4] == '0'
            || s[j + 4] == '1') && (('0' <= s[j + 5] && s[j + 5] <= '9') || ('a' <= s[j + 5]
            && s[j + 5] <= 'f')) {
            let hi: u8 = if s[j + 4] == '0' {
                0
            } else {
                1
            };
            let c5 = s[j + 5];
            let lo: u8 = if c5 <= '9' {
                (c5 as u32 - 48) as u8
            } else {
                (c5 as u32 - 87) as u8
            };
            let v: u8 = hi * 16 + lo;
            assert(v as int == digit_value(d[4]) * 16 + digit_value(d[5]));
            if v == 8 || v == 9 || v == 10 || v == 12 || v == 13 {
                None
            } else {
                Some((v as char, 6))
            }
        } else {
            None
        }
    } else if c0 == '"' || (c0 as u32) < 32 {
        None
    } else {
        Some((c0, 1))
    }
}

proof fn lemma_stands_split(s: Seq<char>, pos: int, q: Seq<char>)
    requires
        stands_at(s, pos, q),
    ensures
        s.skip(pos) == q + s.skip(pos + q.len()),
{
    assert forall|i: int| 0 <= i < q.len() implies s[pos + i] == q[i] by {
        assert(s.subrange(pos, pos + q.len())[i] == s[pos + i]);
    }
    assert(s.skip(pos) =~= q + s.skip(pos + q.len()));
}

/// The text after the opening quote of a string literal for `t` at `pos`.
proof fn lemma_after_open_quote(s: Seq<char>, pos: int, t: Seq<char>)
    requires
        stands_at(s, pos, quoted(t)),
    ensures
        s.skip(pos + 1) == escape(t) + seq!['"'] + s.skip(pos + quoted(t).len()),
        unquote(s.skip(pos + 1)) == Some((t, escape(t).len() + 1 as int)),
{
    let q = quoted(t);
    let rest = s.skip(pos + q.len());
    lemma_stands_split(s, pos, q);
    assert(s.skip(pos + 1) =~= (q + rest).skip(1));
    assert((q + rest).skip(1) =~= escape(t) + seq!['"'] + rest);
    lemma_unquote_of(t, rest);
}

proof fn lemma_no_quoted_at(s: Seq<char>, pos: int)
    requires
        0 <= pos < s.len(),
        unquote(s.skip(pos + 1)) is None,
    ensures
        forall|t: Seq<char>| !#[trigger] stands_at(s, pos, quoted(t)),
{
    assert forall|t: Seq<char>| !#[trigger] stands_at(s, pos, quoted(t)) by {
        if stands_at(s, pos, quoted(t)) {
            lemma_after_open_quote(s, pos, t);
        }
    }
}

/// At most one string literal starts at a given place.
pub proof fn lemma_quoted_unique(s: Seq<char>, pos: int, t: Seq<char>, u: Seq<char>)
    requires
        stands_at(s, pos, quoted(t)),
        stands_at(s, pos, quoted(u)),
    ensures
        t == u,
{
    lemma_after_open_quote(s, pos, t);
    lemma_after_open_quote(s, pos, u);
}

/// Reads the string literal that starts at `pos`: its text and the position
/// just after its closing quote.
pub fn take_string(s: &Vec<char>, pos: usize) -> (r: Option<(Vec<char>, usize)>)
    ensures
        r matches Some((t, e)) ==> e <= s@.len() && e == pos + quoted(t@).len() && stands_at(
            s@,
            pos as int,
            quoted(t@),
        ),
        forall|t: Seq<char>|
            #[trigger] stands_at(s@, pos as int, quoted(t)) ==> (r matches Some((u, e)) && u@
                == t && e == pos + quoted(t).len()),
{
    if pos >= s.len() || s[pos] != '"' {
        proof {
            assert forall|t: Seq<char>| !#[trigger] stands_at(s@, pos as int, quoted(t)) by {
                if stands_at(s@, pos as int, quoted(t)) {
                    assert(s@.subrange(pos as int, pos + quoted(t).len())[0] == s@[pos as int]);
                }
            }
        }
        return None;
    }
    let ghost start = s@.skip(pos + 1);
    let mut out: Vec<char> = Vec::new();
    let mut j: usize = pos + 1;
    while j < s.len()
        invariant
            pos < j <= s@.len(),
            s@[pos as int] == '"',
            start == s@.skip(pos + 1),
            unquote(start) == prepend(out@, j - pos - 1, unquote(s@.skip(j as int))),
        decreases s@.len() - j,
    {
        let ghost d = s@.skip(j as int);
        if s[j] == '"' {
            proof {
                assert(d[0] == s@[j as int]);
                assert(out@ + Seq::<char>::empty() =~= out@);
                assert(unquote(start) == Some((out@, j - pos)));
                lemma_unquote_sound(start);
                assert(s@.subrange(pos as int, j + 1) =~= seq!['"'] + start.take(j - pos));
                assert(seq!['"'] + (escape(out@) + seq!['"']) =~= quoted(out@));
                assert forall|t: Seq<char>| #[trigger] stands_at(s@, pos as int, quoted(t)) implies (
                t == out@ && j + 1 == pos + quoted(t).len()) by {
                    lemma_after_open_quote(s@, pos as int, t);
                }
            }
            return Some((out, j + 1));
        }
        match unescape_one_at(s, j) {
            None => {
                proof {
                    assert(d[0] == s@[j as int]);
                    assert(unquote(d) is None);
                    lemma_no_quoted_at(s@, pos as int);
                }
                return None;
            },
            Some((c, k)) => {
                proof {
                    assert(d.skip(k as int) =~= s@.skip(j + k));
                    match unquote(d.skip(k as int)) {
                        Some((t, n)) => {
                            assert(out@ + (seq![c] + t) =~= out@.push(c) + t);
                        },
                        None => {},
                    }
                }
                out.push(c);
                j = j + k;
            },
        }
    }
    proof {
        assert(s@.skip(j as int).len() == 0);
        lemma_no_quoted_at(s@, pos as int);
    }
    None
}

/// Whether a character is written as itself inside a string literal.
pub open spec fn is_plain(c: char) -> bool {
    c != '"' && c != '\\' && !is_control(c)
}

/// A text of plain characters is written as itself.
pub proof fn lemma_escape_plain(t: Seq<char>)
    requires
        forall|i: int| 0 <= i < t.len() ==> is_plain(#[trigger] t[i]),
    ensures
        escape(t) == t,
    decreases t.len(),
{
    if t.len() > 0 {
        assert(is_plain(t[0]));
        assert forall|i: int| 0 <= i < t.skip(1).len() implies is_plain(#[trigger] t.skip(1)[i]) by {
            assert(t.skip(1)[i] == t[i + 1]);
        }
        lemma_escape_plain(t.skip(1));
        assert(escape(t) =~= t);
    }
}

fn push_escaped_char(out: &mut Vec<char>, c: char)
    ensures
        final(out)@ == old(out)@ + escape_char(c),
{
    let ghost start = out@;
    if c == '"' || c == '\\' {
        out.push('\\');
        out.push(c);
    } else if c as u32 == 8 {
        out.push('\\');
        out.push('b');
    } else if c as u32 == 12 {
        out.push('\\');
        out.push('f');
    } else if c == '\n' {
        out.push('\\');
        out.push('n');
    } else if c == '\r' {
        out.push('\\');
        out.push('r');
    } else if c == '\t' {
        out.push('\\');
        out.push('t');
    } else if (c as u32) < 32 {
        let v = c as u32;
        out.push('\\');
        out.push('u');
        out.push('0');
        out.push('0');
        out.push(if v < 16 {
            '0'
        } else {
            '1'
        });
        let lo = v % 16;
        let d = if lo < 10 {
            ((lo as u8) + 48) as char
        } else {
            ((lo as u8) + 87) as char
        };
        out.push(d);
        assert(v < 16 ==> hex_char(c as int / 16) == '0');
        assert(v >= 16 ==> hex_char(c as int / 16) == '1');
    } else {
        out.push(c);
    }
    assert(out@ =~= start + escape_char(c));
}

/// Appends the characters of `t`.
pub fn push_str(out: &mut Vec<char>, t: &str)
    ensures
        final(out)@ == old(out)@ + t@,
{
    let n = t.unicode_len();
    let mut i: usize = 0;
    while i < n
        invariant
            n == t@.len(),
            i <= n,
            out@ == old(out)@ + t@.take(i as int),
        decreases n - i,
    {
        let c = t.get_char(i);
        out.push(c);
        assert(t@.take(i + 1) =~= t@.take(i as int).push(c));
        assert(old(out)@ + t@.take(i + 1) =~= old(out)@ + t@.take(i as int) + seq![c]);
        i = i + 1;
    }
    assert(t@.take(n as int) =~= t@);
}

/// Appends the string literal for `t`.
pub fn push_quoted(out: &mut Vec<char>, t: &str)
    ensures
        final(out)@ == old(out)@ + quoted(t@),
{
    out.push('"');
    let n = t.unicode_len();
    let mut i: usize = 0;
    assert(escape(t@.take(0)) =~= Seq::<char>::empty());
    while i < n
        invariant
            n == t@.len(),
            i <= n,
            out@ == old(out)@ + seq!['"'] + escape(t@.take(i as int)),
        decreases n - i,
    {
        let c = t.get_char(i);
        push_escaped_char(out, c);
        proof {
            assert(t@.take(i + 1) =~= t@.take(i as int).push(c));
            lemma_escape_push(t@.take(i as int), c);
            assert(out@ =~= old(out)@ + seq!['"'] + escape(t@.take(i + 1)));
        }
        i = i + 1;
    }
    assert(t@.take(n as int) =~= t@);
    out.push('"');
    assert(out@ =~= old(out)@ + quoted(t@));
}

/// Reads `lit` at `pos`: the position after it, if it stands there.
pub fn take_lit(s: &Vec<char>, pos: usize, lit: &str) -> (r: Option<usize>)
    ensures
        stands_at(s@, pos as int, lit@) ==> (r matches Some(e) && e == pos + lit@.len()),
        !stands_at(s@, pos as int, lit@) ==> r is None,
{
    let n = lit.unicode_len();
    if pos > s.len() || n > s.len() - pos {
        return None;
    }
    let len = s.len();
    let mut i: usize = 0;
    while i < n
        invariant
            n == lit@.len(),
            len == s@.len(),
            pos + n <= len,
            i <= n,
            forall|k: int| 0 <= k < i ==> s@[pos + k] == lit@[k],
        decreases n - i,
    {
        assert(pos + i < s@.len());
        if s[pos + i] != lit.get_char(i) {
            assert(s@.subrange(pos as int, pos + n)[i as int] != lit@[i as int]);
            return None;
        }
        i = i + 1;
    }
    assert(s@.subrange(pos as int, pos + n) =~= lit@);
    Some(pos + n)
}

/// Whether the characters of `v` are those of `lit`.
pub fn eq_lit(v: &Vec<char>, lit: &str) -> (r: bool)
    ensures
        r == (v@ == lit@),
{
    match take_lit(v, 0, lit) {
        Some(e) => {
            if e == v.len() {
                assert(v@.subrange(0, e as int) =~= v@);
                true
            } else {
                false
            }
        },
        None => {
            assert(v@ == lit@ ==> v@.subrange(0, v@.len() as int) =~= lit@);
            false
        },
    }
}

/// The characters of `t`.
pub fn chars_of(t: &str) -> (r: Vec<char>)
    ensures
        r@ == t@,
{
    let mut r: Vec<char> = Vec::new();
    push_str(&mut r, t);
    assert(r@ =~= t@);
    r
}

/// Relies on `String: FromIterator<char>`: the string holds the characters
/// in the order that they come.
#[verifier::external_body]
pub fn string_of(v: Vec<char>) -> (r: String)
    ensures
        r@ == v@,
{
    String::from_iter(v)
}

} // verus!
