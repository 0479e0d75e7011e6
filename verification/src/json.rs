//! A byte-level parser for the provider's record payload: one JSON document
//! whose top object carries a `choices` array; choice 0 carries the streamed
//! turn either as a whole `message` or as an incremental `delta`.
//!
//! The grammar is given by spec functions over byte sequences; the executable
//! scanner is proved to return exactly what the spec functions say. Member
//! values that the client never reads are scanned for well-formedness and
//! skipped; an unquoted scalar is any run of token bytes, so number syntax
//! is not checked further. A `\u` escape stands for its scalar; one naming
//! a surrogate half does not match the grammar, so such a record counts as
//! malformed and is skipped, never misread.
use vstd::prelude::*;

verus! {

/// Byte value of `"`.
pub const QUOTE: u8 = 34;

/// Byte value of `\`.
pub const BACKSLASH: u8 = 92;

/// Byte value of `{`.
pub const LBRACE: u8 = 123;

/// Byte value of `}`.
pub const RBRACE: u8 = 125;

/// Byte value of `[`.
pub const LBRACKET: u8 = 91;

/// Byte value of `]`.
pub const RBRACKET: u8 = 93;

/// Byte value of `:`.
pub const COLON: u8 = 58;

/// Byte value of `,`.
pub const COMMA: u8 = 44;

/// The four whitespace bytes that JSON allows between tokens.
pub open spec fn is_ws_byte(b: u8) -> bool {
    b == 32 || b == 9 || b == 10 || b == 13
}

/// Bytes that may make up an unquoted scalar token: digits, letters, sign,
/// point and exponent marks. Covers numbers, `true`, `false` and `null`.
pub open spec fn is_atom_byte(b: u8) -> bool {
    (48 <= b && b <= 57)  // 0-9
     || (97 <= b && b <= 122)  // a-z
     || b == 43 || b == 45 || b == 46  // + - .
     || b == 69  // E

}

/// First position at or after `i` holding a byte that is not JSON whitespace.
pub open spec fn spec_skip_ws(s: Seq<u8>, i: int) -> int
    decreases s.len() - i,
{
    if 0 <= i < s.len() && is_ws_byte(s[i]) {
        spec_skip_ws(s, i + 1)
    } else {
        i
    }
}

/// Skipping whitespace never moves backwards nor past the end.
proof fn lemma_skip_ws_bounds(s: Seq<u8>, i: int)
    requires
        0 <= i <= s.len(),
    ensures
        i <= spec_skip_ws(s, i) <= s.len(),
    decreases s.len() - i,
{
    if 0 <= i < s.len() && is_ws_byte(s[i]) {
        lemma_skip_ws_bounds(s, i + 1);
    }
}

/// What one backslash escape stands for; `None` for an escape the parser
/// does not accept.
pub open spec fn spec_unescape(b: u8) -> Option<u8> {
    if b == QUOTE || b == BACKSLASH || b == 47 {
        Some(b)
    } else if b == 98 {  // \b
        Some(8)
    } else if b == 102 {  // \f
        Some(12)
    } else if b == 110 {  // \n
        Some(10)
    } else if b == 114 {  // \r
        Some(13)
    } else if b == 116 {  // \t
        Some(9)
    } else {
        None
    }
}

/// The value of one hex digit, lower or upper case; below zero for a
/// byte that is no hex digit.
pub open spec fn spec_hex_val(b: u8) -> int {
    if 48 <= b && b <= 57 {
        b - 48
    } else if 97 <= b && b <= 102 {
        b - 87
    } else if 65 <= b && b <= 70 {
        b - 55
    } else {
        -1
    }
}

/// The value of the four hex digits at `j`; below zero when any of the
/// four bytes is no hex digit.
pub open spec fn spec_hex4(s: Seq<u8>, j: int) -> int {
    if spec_hex_val(s[j]) < 0 || spec_hex_val(s[j + 1]) < 0 || spec_hex_val(s[j + 2]) < 0
        || spec_hex_val(s[j + 3]) < 0 {
        -1
    } else {
        spec_hex_val(s[j]) * 4096 + spec_hex_val(s[j + 1]) * 256 + spec_hex_val(s[j + 2]) * 16
            + spec_hex_val(s[j + 3])
    }
}

/// The UTF-8 bytes of a scalar below 0x10000: one byte up to 0x7f, two up
/// to 0x7ff, three beyond.
pub open spec fn spec_scalar_bytes(v: int) -> Seq<u8> {
    if v < 0x80 {
        seq![v as u8]
    } else if v < 0x800 {
        seq![(0xc0 + v / 0x40) as u8, (0x80 + v % 0x40) as u8]
    } else {
        seq![
            (0xe0 + v / 0x1000) as u8,
            (0x80 + (v / 0x40) % 0x40) as u8,
            (0x80 + v % 0x40) as u8,
        ]
    }
}

/// The body of a JSON string starting just after the opening quote at
/// position `i`: the unescaped bytes and the position just after the
/// closing quote. A `\u` escape of four hex digits stands for its scalar,
/// written out in UTF-8. `None` when the string is unterminated, holds a
/// raw control byte, or uses an escape the grammar refuses — an unknown
/// escape letter, broken hex digits, or a `\u` naming a surrogate.
pub open spec fn spec_string_body(s: Seq<u8>, i: int) -> Option<(Seq<u8>, int)>
    decreases s.len() - i,
{
    if i < 0 || i >= s.len() {
        None
    } else if s[i] == QUOTE {
        Some((Seq::empty(), i + 1))
    } else if s[i] == BACKSLASH {
        if i + 1 >= s.len() {
            None
        } else {
            match spec_unescape(s[i + 1]) {
                Some(b) => match spec_string_body(s, i + 2) {
                    Some(t) => Some((seq![b] + t.0, t.1)),
                    None => None,
                },
                None => if s[i + 1] == 117 {
                    if i + 6 > s.len() {
                        None
                    } else {
                        let v = spec_hex4(s, i + 2);
                        if v < 0 || (0xd800 <= v && v < 0xe000) {
                            None
                        } else {
                            match spec_string_body(s, i + 6) {
                                Some(t) => Some((spec_scalar_bytes(v) + t.0, t.1)),
                                None => None,
                            }
                        }
                    }
                } else {
                    None
                },
            }
        }
    } else if s[i] < 32 {
        None
    } else {
        match spec_string_body(s, i + 1) {
            Some(t) => Some((seq![s[i]] + t.0, t.1)),
            None => None,
        }
    }
}

/// A parsed string body ends after its opening position and within the text.
proof fn lemma_string_body_bounds(s: Seq<u8>, i: int)
    requires
        0 <= i <= s.len(),
        spec_string_body(s, i) is Some,
    ensures
        i < spec_string_body(s, i)->Some_0.1 <= s.len(),
    decreases s.len() - i,
{
    if s[i] == QUOTE {
    } else if s[i] == BACKSLASH {
        if spec_unescape(s[i + 1]) is Some {
            lemma_string_body_bounds(s, i + 2);
        } else {
            lemma_string_body_bounds(s, i + 6);
        }
    } else {
        lemma_string_body_bounds(s, i + 1);
    }
}

/// First position at or after `i` holding a byte outside the scalar-token
/// set.
pub open spec fn spec_skip_atom(s: Seq<u8>, i: int) -> int
    decreases s.len() - i,
{
    if 0 <= i < s.len() && is_atom_byte(s[i]) {
        spec_skip_atom(s, i + 1)
    } else {
        i
    }
}

/// Skipping a scalar token never moves backwards nor past the end.
proof fn lemma_skip_atom_bounds(s: Seq<u8>, i: int)
    requires
        0 <= i <= s.len(),
    ensures
        i <= spec_skip_atom(s, i) <= s.len(),
    decreases s.len() - i,
{
    if 0 <= i < s.len() && is_atom_byte(s[i]) {
        lemma_skip_atom_bounds(s, i + 1);
    }
}

/// Executable whitespace skip; returns exactly what the spec says.
fn skip_ws(s: &Vec<u8>, i: usize) -> (r: usize)
    requires
        i <= s@.len(),
    ensures
        r == spec_skip_ws(s@, i as int),
        i <= r <= s@.len(),
{
    let mut r: usize = i;
    while r < s.len() && (s[r] == 32 || s[r] == 9 || s[r] == 10 || s[r] == 13)
        invariant
            i <= r <= s@.len(),
            spec_skip_ws(s@, i as int) == spec_skip_ws(s@, r as int),
        decreases s@.len() - r,
    {
        r = r + 1;
    }
    r
}

/// Executable scalar-token skip; returns exactly what the spec says.
fn skip_atom(s: &Vec<u8>, i: usize) -> (r: usize)
    requires
        i <= s@.len(),
    ensures
        r == spec_skip_atom(s@, i as int),
        i <= r <= s@.len(),
{
    let mut r: usize = i;
    while r < s.len() && ((48 <= s[r] && s[r] <= 57) || (97 <= s[r] && s[r] <= 122) || s[r] == 43
        || s[r] == 45 || s[r] == 46 || s[r] == 69)
        invariant
            i <= r <= s@.len(),
            spec_skip_atom(s@, i as int) == spec_skip_atom(s@, r as int),
        decreases s@.len() - r,
    {
        r = r + 1;
    }
    r
}

/// Executable hex-digit value; below zero for a byte that is none.
fn hex_val(b: u8) -> (r: i32)
    ensures
        r == spec_hex_val(b),
{
    if 48 <= b && b <= 57 {
        (b - 48) as i32
    } else if 97 <= b && b <= 102 {
        (b - 87) as i32
    } else if 65 <= b && b <= 70 {
        (b - 55) as i32
    } else {
        -1
    }
}

/// Append the UTF-8 bytes of one scalar below 0x10000.
fn push_scalar(out: &mut Vec<u8>, v: i32)
    requires
        0 <= v < 0x10000,
    ensures
        final(out)@ == old(out)@ + spec_scalar_bytes(v as int),
{
    if v < 0x80 {
        out.push(v as u8);
    } else if v < 0x800 {
        out.push((0xc0 + v / 0x40) as u8);
        out.push((0x80 + v % 0x40) as u8);
    } else {
        out.push((0xe0 + v / 0x1000) as u8);
        out.push((0x80 + (v / 0x40) % 0x40) as u8);
        out.push((0x80 + v % 0x40) as u8);
    }
    proof {
        assert(out@ =~= old(out)@ + spec_scalar_bytes(v as int));
    }
}

/// Executable unescape of one backslash escape.
fn unescape(b: u8) -> (r: Option<u8>)
    ensures
        r == spec_unescape(b),
{
    if b == QUOTE || b == BACKSLASH || b == 47 {
        Some(b)
    } else if b == 98 {
        Some(8)
    } else if b == 102 {
        Some(12)
    } else if b == 110 {
        Some(10)
    } else if b == 114 {
        Some(13)
    } else if b == 116 {
        Some(9)
    } else {
        None
    }
}

/// Executable string-body scan starting just after an opening quote;
/// returns the unescaped bytes and the position after the closing quote,
/// exactly as the spec says.
fn string_body(s: &Vec<u8>, i: usize) -> (r: Option<(Vec<u8>, usize)>)
    requires
        i <= s@.len(),
    ensures
        match r {
            Some(t) => spec_string_body(s@, i as int) == Some((t.0@, t.1 as int)) && i < t.1
                <= s@.len(),
            None => spec_string_body(s@, i as int) is None,
        },
{
    let mut out: Vec<u8> = Vec::new();
    let mut cur: usize = i;
    loop
        invariant
            i <= cur <= s@.len(),
            spec_string_body(s@, i as int) == (match spec_string_body(s@, cur as int) {
                Some(t) => Some::<(Seq<u8>, int)>((out@ + t.0, t.1)),
                None => None::<(Seq<u8>, int)>,
            }),
        decreases s@.len() - cur,
    {
        if cur >= s.len() {
            return None;
        }
        let b = s[cur];
        if b == QUOTE {
            proof {
                assert(spec_string_body(s@, cur as int) == Some(
                    (Seq::<u8>::empty(), cur + 1 as int),
                ));
                assert(out@ + Seq::<u8>::empty() =~= out@);
            }
            return Some((out, cur + 1));
        } else if b == BACKSLASH {
            if cur + 1 >= s.len() {
                return None;
            }
            match unescape(s[cur + 1]) {
                Some(e) => {
                    proof {
                        let sb = spec_string_body(s@, cur + 2 as int);
                        if sb is Some {
                            assert(out@ + (seq![e] + sb->Some_0.0) =~= (out@ + seq![e])
                                + sb->Some_0.0);
                        }
                    }
                    out.push(e);
                    cur = cur + 2;
                },
                None => {
                    if s[cur + 1] != 117 {
                        return None;
                    }
                    if s.len() - cur < 6 {
                        return None;
                    }
                    let h0 = hex_val(s[cur + 2]);
                    let h1 = hex_val(s[cur + 3]);
                    let h2 = hex_val(s[cur + 4]);
                    let h3 = hex_val(s[cur + 5]);
                    if h0 < 0 || h1 < 0 || h2 < 0 || h3 < 0 {
                        return None;
                    }
                    let v: i32 = h0 * 4096 + h1 * 256 + h2 * 16 + h3;
                    proof {
                        assert(v == spec_hex4(s@, cur + 2 as int));
                    }
                    if 0xd800 <= v && v < 0xe000 {
                        return None;
                    }
                    proof {
                        let sb = spec_string_body(s@, cur + 6 as int);
                        if sb is Some {
                            assert(out@ + (spec_scalar_bytes(v as int) + sb->Some_0.0) =~= (out@
                                + spec_scalar_bytes(v as int)) + sb->Some_0.0);
                        }
                    }
                    push_scalar(&mut out, v);
                    cur = cur + 6;
                },
            }
        } else if b < 32 {
            return None;
        } else {
            proof {
                let sb = spec_string_body(s@, cur + 1 as int);
                if sb is Some {
                    assert(out@ + (seq![b] + sb->Some_0.0) =~= (out@ + seq![b]) + sb->Some_0.0);
                }
            }
            out.push(b);
            cur = cur + 1;
        }
    }
}

/// Position just after one whole JSON value starting at `i` (`i` at a
/// non-whitespace byte), or `None` when no value starts there. `fuel`
/// bounds the nesting the scan will follow.
pub open spec fn spec_skip_value(s: Seq<u8>, i: int, fuel: nat) -> Option<int>
    decreases fuel,
{
    if fuel == 0 {
        None
    } else if i < 0 || i >= s.len() {
        None
    } else if s[i] == QUOTE {
        match spec_string_body(s, i + 1) {
            Some(t) => Some(t.1),
            None => None,
        }
    } else if s[i] == LBRACE {
        spec_skip_members(s, spec_skip_ws(s, i + 1), true, (fuel - 1) as nat)
    } else if s[i] == LBRACKET {
        spec_skip_elements(s, spec_skip_ws(s, i + 1), true, (fuel - 1) as nat)
    } else if is_atom_byte(s[i]) {
        Some(spec_skip_atom(s, i))
    } else {
        None
    }
}

/// Position just after the members and closing brace of an object whose
/// member list starts at `i`; `first` says whether no member has been read
/// yet (only then may `}` follow at once).
pub open spec fn spec_skip_members(s: Seq<u8>, i: int, first: bool, fuel: nat) -> Option<int>
    decreases fuel,
{
    if fuel == 0 {
        None
    } else if i < 0 || i >= s.len() {
        None
    } else if first && s[i] == RBRACE {
        Some(i + 1)
    } else if s[i] == QUOTE {
        match spec_string_body(s, i + 1) {
            Some(t) => {
                let j = spec_skip_ws(s, t.1);
                if j < s.len() && s[j] == COLON {
                    match spec_skip_value(s, spec_skip_ws(s, j + 1), (fuel - 1) as nat) {
                        Some(k) => {
                            let m = spec_skip_ws(s, k);
                            if m < s.len() && s[m] == RBRACE {
                                Some(m + 1)
                            } else if m < s.len() && s[m] == COMMA {
                                spec_skip_members(s, spec_skip_ws(s, m + 1), false, (fuel - 1) as nat)
                            } else {
                                None
                            }
                        },
                        None => None,
                    }
                } else {
                    None
                }
            },
            None => None,
        }
    } else {
        None
    }
}

/// Position just after the elements and closing bracket of an array whose
/// element list starts at `i`.
pub open spec fn spec_skip_elements(s: Seq<u8>, i: int, first: bool, fuel: nat) -> Option<int>
    decreases fuel,
{
    if fuel == 0 {
        None
    } else if i < 0 || i >= s.len() {
        None
    } else if first && s[i] == RBRACKET {
        Some(i + 1)
    } else {
        match spec_skip_value(s, i, (fuel - 1) as nat) {
            Some(k) => {
                let m = spec_skip_ws(s, k);
                if m < s.len() && s[m] == RBRACKET {
                    Some(m + 1)
                } else if m < s.len() && s[m] == COMMA {
                    spec_skip_elements(s, spec_skip_ws(s, m + 1), false, (fuel - 1) as nat)
                } else {
                    None
                }
            },
            None => None,
        }
    }
}

/// Executable value skip; returns exactly what the spec says.
fn skip_value(s: &Vec<u8>, i: usize, fuel: u64) -> (r: Option<usize>)
    requires
        i <= s@.len(),
    ensures
        match r {
            Some(k) => spec_skip_value(s@, i as int, fuel as nat) == Some(k as int) && i < k
                <= s@.len(),
            None => spec_skip_value(s@, i as int, fuel as nat) is None,
        },
    decreases fuel,
{
    if fuel == 0 {
        return None;
    }
    if i >= s.len() {
        return None;
    }
    let b = s[i];
    if b == QUOTE {
        match string_body(s, i + 1) {
            Some(t) => Some(t.1),
            None => None,
        }
    } else if b == LBRACE {
        let j = skip_ws(s, i + 1);
        skip_members(s, j, true, fuel - 1)
    } else if b == LBRACKET {
        let j = skip_ws(s, i + 1);
        skip_elements(s, j, true, fuel - 1)
    } else if (48 <= b && b <= 57) || (97 <= b && b <= 122) || b == 43 || b == 45 || b == 46 || b
        == 69 {
        proof {
            lemma_skip_atom_bounds(s@, i + 1);
        }
        Some(skip_atom(s, i))
    } else {
        None
    }
}

/// Executable object-member skip; returns exactly what the spec says.
fn skip_members(s: &Vec<u8>, i: usize, first: bool, fuel: u64) -> (r: Option<usize>)
    requires
        i <= s@.len(),
    ensures
        match r {
            Some(k) => spec_skip_members(s@, i as int, first, fuel as nat) == Some(k as int) && i
                < k <= s@.len(),
            None => spec_skip_members(s@, i as int, first, fuel as nat) is None,
        },
    decreases fuel,
{
    if fuel == 0 {
        return None;
    }
    if i >= s.len() {
        return None;
    }
    if first && s[i] == RBRACE {
        return Some(i + 1);
    }
    if s[i] != QUOTE {
        return None;
    }
    match string_body(s, i + 1) {
        Some(t) => {
            let j = skip_ws(s, t.1);
            if j < s.len() && s[j] == COLON {
                let v = skip_ws(s, j + 1);
                match skip_value(s, v, fuel - 1) {
                    Some(k) => {
                        let m = skip_ws(s, k);
                        if m < s.len() && s[m] == RBRACE {
                            Some(m + 1)
                        } else if m < s.len() && s[m] == COMMA {
                            let n = skip_ws(s, m + 1);
                            skip_members(s, n, false, fuel - 1)
                        } else {
                            None
                        }
                    },
                    None => None,
                }
            } else {
                None
            }
        },
        None => None,
    }
}

/// Executable array-element skip; returns exactly what the spec says.
fn skip_elements(s: &Vec<u8>, i: usize, first: bool, fuel: u64) -> (r: Option<usize>)
    requires
        i <= s@.len(),
    ensures
        match r {
            Some(k) => spec_skip_elements(s@, i as int, first, fuel as nat) == Some(k as int) && i
                < k <= s@.len(),
            None => spec_skip_elements(s@, i as int, first, fuel as nat) is None,
        },
    decreases fuel,
{
    if fuel == 0 {
        return None;
    }
    if i >= s.len() {
        return None;
    }
    if first && s[i] == RBRACKET {
        return Some(i + 1);
    }
    match skip_value(s, i, fuel - 1) {
        Some(k) => {
            let m = skip_ws(s, k);
            if m < s.len() && s[m] == RBRACKET {
                Some(m + 1)
            } else if m < s.len() && s[m] == COMMA {
                let n = skip_ws(s, m + 1);
                skip_elements(s, n, false, fuel - 1)
            } else {
                None
            }
        },
        None => None,
    }
}

/// The bytes of the member name `choices`.
pub open spec fn key_choices() -> Seq<u8> {
    seq![99u8, 104u8, 111u8, 105u8, 99u8, 101u8, 115u8]
}

/// The bytes of the member name `message`.
pub open spec fn key_message() -> Seq<u8> {
    seq![109u8, 101u8, 115u8, 115u8, 97u8, 103u8, 101u8]
}

/// The bytes of the member name `delta`.
pub open spec fn key_delta() -> Seq<u8> {
    seq![100u8, 101u8, 108u8, 116u8, 97u8]
}

/// The bytes of the member name `role`.
pub open spec fn key_role() -> Seq<u8> {
    seq![114u8, 111u8, 108u8, 101u8]
}

/// The bytes of the member name `content`.
pub open spec fn key_content() -> Seq<u8> {
    seq![99u8, 111u8, 110u8, 116u8, 101u8, 110u8, 116u8]
}

/// The bytes of the member name `finish_reason`.
pub open spec fn key_finish_reason() -> Seq<u8> {
    seq![
        102u8,
        105u8,
        110u8,
        105u8,
        115u8,
        104u8,
        95u8,
        114u8,
        101u8,
        97u8,
        115u8,
        111u8,
        110u8,
    ]
}

/// Whether the two byte vectors hold the same bytes.
fn eq_bytes(a: &Vec<u8>, b: &Vec<u8>) -> (r: bool)
    ensures
        r == (a@ == b@),
{
    if a.len() != b.len() {
        return false;
    }
    let mut i: usize = 0;
    while i < a.len()
        invariant
            i <= a@.len(),
            a@.len() == b@.len(),
            forall|j: int| 0 <= j < i ==> a@[j] == b@[j],
        decreases a@.len() - i,
    {
        if a[i] != b[i] {
            return false;
        }
        i = i + 1;
    }
    proof {
        assert(a@ =~= b@);
    }
    true
}

/// Where the value of the member called `name` starts in an object whose
/// member list starts at `i`: `None` for a malformed object, `Some(None)`
/// when the object ends without such a member, `Some(Some(v))` for the
/// first such member, its value starting at `v`. Members before it must be
/// well-formed; the found value itself is not checked here.
pub open spec fn spec_find_member(s: Seq<u8>, i: int, first: bool, name: Seq<u8>, fuel: nat) -> Option<
    Option<int>,
>
    decreases fuel,
{
    if fuel == 0 {
        None
    } else if i < 0 || i >= s.len() {
        None
    } else if first && s[i] == RBRACE {
        Some(None)
    } else if s[i] == QUOTE {
        match spec_string_body(s, i + 1) {
            Some(t) => {
                let j = spec_skip_ws(s, t.1);
                if j < s.len() && s[j] == COLON {
                    let v = spec_skip_ws(s, j + 1);
                    if t.0 == name {
                        Some(Some(v))
                    } else {
                        match spec_skip_value(s, v, (fuel - 1) as nat) {
                            Some(k) => {
                                let m = spec_skip_ws(s, k);
                                if m < s.len() && s[m] == RBRACE {
                                    Some(None)
                                } else if m < s.len() && s[m] == COMMA {
                                    spec_find_member(s, spec_skip_ws(s, m + 1), false, name, (fuel - 1) as nat)
                                } else {
                                    None
                                }
                            },
                            None => None,
                        }
                    }
                } else {
                    None
                }
            },
            None => None,
        }
    } else {
        None
    }
}

/// Executable member search; returns exactly what the spec says.
fn find_member(s: &Vec<u8>, i: usize, first: bool, name: &Vec<u8>, fuel: u64) -> (r: Option<
    Option<usize>,
>)
    requires
        i <= s@.len(),
    ensures
        match r {
            Some(o) => spec_find_member(s@, i as int, first, name@, fuel as nat) == Some(
                match o {
                    Some(v) => Some(v as int),
                    None => None::<int>,
                },
            ) && (o matches Some(v) ==> v <= s@.len()),
            None => spec_find_member(s@, i as int, first, name@, fuel as nat) is None,
        },
    decreases fuel,
{
    if fuel == 0 {
        return None;
    }
    if i >= s.len() {
        return None;
    }
    if first && s[i] == RBRACE {
        return Some(None);
    }
    if s[i] != QUOTE {
        return None;
    }
    match string_body(s, i + 1) {
        Some(t) => {
            let j = skip_ws(s, t.1);
            if j < s.len() && s[j] == COLON {
                let v = skip_ws(s, j + 1);
                if eq_bytes(&t.0, name) {
                    Some(Some(v))
                } else {
                    match skip_value(s, v, fuel - 1) {
                        Some(k) => {
                            let m = skip_ws(s, k);
                            if m < s.len() && s[m] == RBRACE {
                                Some(None)
                            } else if m < s.len() && s[m] == COMMA {
                                let n = skip_ws(s, m + 1);
                                find_member(s, n, false, name, fuel - 1)
                            } else {
                                None
                            }
                        },
                        None => None,
                    }
                }
            } else {
                None
            }
        },
        None => None,
    }
}

/// Whether the scalar token starting at `v` is exactly `null`.
pub open spec fn spec_null_at(s: Seq<u8>, v: int) -> bool {
    &&& spec_skip_atom(s, v) == v + 4
    &&& v + 4 <= s.len()
    &&& s[v] == 110
    &&& s[v + 1] == 117
    &&& s[v + 2] == 108
    &&& s[v + 3] == 108
}

/// The shape of one member value, as far as the client cares: absent,
/// JSON null, a string (unescaped bytes), an object or array (position of
/// its opening byte), or some other value.
pub enum SpecField {
    Absent,
    Null,
    Str(Seq<u8>),
    Obj(int),
    Arr(int),
    Other,
}

/// The value of the member called `name` of the object whose member list
/// starts at `i`, classified by shape. `None` when the scan up to that
/// member fails or the member's string value is malformed.
pub open spec fn spec_member_field(s: Seq<u8>, i: int, name: Seq<u8>, fuel: nat) -> Option<
    SpecField,
> {
    match spec_find_member(s, i, true, name, fuel) {
        None => None,
        Some(None) => Some(SpecField::Absent),
        Some(Some(v)) => if v >= s.len() {
            None
        } else if s[v] == QUOTE {
            match spec_string_body(s, v + 1) {
                Some(t) => Some(SpecField::Str(t.0)),
                None => None,
            }
        } else if s[v] == LBRACE {
            Some(SpecField::Obj(v))
        } else if s[v] == LBRACKET {
            Some(SpecField::Arr(v))
        } else if spec_null_at(s, v) {
            Some(SpecField::Null)
        } else {
            Some(SpecField::Other)
        },
    }
}

/// Executable counterpart of `SpecField`; string bytes owned.
pub enum Field {
    Absent,
    Null,
    Str(Vec<u8>),
    Obj(usize),
    Arr(usize),
    Other,
}

impl View for Field {
    type V = SpecField;

    open spec fn view(&self) -> SpecField {
        match self {
            Field::Absent => SpecField::Absent,
            Field::Null => SpecField::Null,
            Field::Str(b) => SpecField::Str(b@),
            Field::Obj(p) => SpecField::Obj(*p as int),
            Field::Arr(p) => SpecField::Arr(*p as int),
            Field::Other => SpecField::Other,
        }
    }
}

/// Executable member-value classification; returns exactly what the spec
/// says.
fn member_field(s: &Vec<u8>, i: usize, name: &Vec<u8>, fuel: u64) -> (r: Option<Field>)
    requires
        i <= s@.len(),
    ensures
        match r {
            Some(f) => spec_member_field(s@, i as int, name@, fuel as nat) == Some(f@),
            None => spec_member_field(s@, i as int, name@, fuel as nat) is None,
        },
        match r {
            Some(Field::Obj(p)) => p < s@.len(),
            Some(Field::Arr(p)) => p < s@.len(),
            _ => true,
        },
{
    match find_member(s, i, true, name, fuel) {
        None => None,
        Some(None) => Some(Field::Absent),
        Some(Some(v)) => {
            if v >= s.len() {
                None
            } else if s[v] == QUOTE {
                match string_body(s, v + 1) {
                    Some(t) => Some(Field::Str(t.0)),
                    None => None,
                }
            } else if s[v] == LBRACE {
                Some(Field::Obj(v))
            } else if s[v] == LBRACKET {
                Some(Field::Arr(v))
            } else {
                let k = skip_atom(s, v);
                if k - v == 4 && s[v] == 110 && s[v + 1] == 117 && s[v + 2] == 108 && s[v + 3]
                    == 108 {
                    Some(Field::Null)
                } else {
                    proof {
                        assert(!spec_null_at(s@, v as int));
                    }
                    Some(Field::Other)
                }
            }
        },
    }
}

/// One streamed turn fragment as raw bytes: the role name and the content
/// text, each optional.
#[derive(Debug, Clone, PartialEq, Eq)]
pub struct FragmentBytes {
    pub role: Option<Vec<u8>>,
    pub content: Option<Vec<u8>>,
}

/// Mathematical image of a `FragmentBytes`.
pub struct FragmentBytesView {
    pub role: Option<Seq<u8>>,
    pub content: Option<Seq<u8>>,
}

/// The view of an optional byte vector.
pub open spec fn view_opt_bytes(o: Option<Vec<u8>>) -> Option<Seq<u8>> {
    match o {
        Some(v) => Some(v@),
        None => None,
    }
}

impl View for FragmentBytes {
    type V = FragmentBytesView;

    open spec fn view(&self) -> FragmentBytesView {
        FragmentBytesView { role: view_opt_bytes(self.role), content: view_opt_bytes(self.content) }
    }
}

/// What one payload line decodes to: a response record carrying the
/// optional `message` and `delta` fragments and the optional finish
/// reason of choice 0; a record whose choice list is empty; or a payload
/// that does not match the expected shape at all.
#[derive(Debug, Clone, PartialEq, Eq)]
pub enum Payload {
    Record {
        message: Option<FragmentBytes>,
        delta: Option<FragmentBytes>,
        finish_reason: Option<Vec<u8>>,
    },
    NoChoices,
    Malformed,
}

/// Mathematical image of a `Payload`.
pub enum PayloadView {
    Record {
        message: Option<FragmentBytesView>,
        delta: Option<FragmentBytesView>,
        finish_reason: Option<Seq<u8>>,
    },
    NoChoices,
    Malformed,
}

/// The view of an optional fragment.
pub open spec fn view_opt_fragment(o: Option<FragmentBytes>) -> Option<FragmentBytesView> {
    match o {
        Some(f) => Some(f@),
        None => None,
    }
}

impl View for Payload {
    type V = PayloadView;

    open spec fn view(&self) -> PayloadView {
        match self {
            Payload::Record { message, delta, finish_reason } => PayloadView::Record {
                message: view_opt_fragment(*message),
                delta: view_opt_fragment(*delta),
                finish_reason: view_opt_bytes(*finish_reason),
            },
            Payload::NoChoices => PayloadView::NoChoices,
            Payload::Malformed => PayloadView::Malformed,
        }
    }
}

/// A turn fragment read from the object starting at `obj`: its optional
/// `role` and `content` strings. `None` when either member has a shape the
/// record grammar refuses.
pub open spec fn spec_fragment_obj(s: Seq<u8>, obj: int, fuel: nat) -> Option<FragmentBytesView> {
    let body = spec_skip_ws(s, obj + 1);
    match (spec_member_field(s, body, key_role(), fuel), spec_member_field(
        s,
        body,
        key_content(),
        fuel,
    )) {
        (Some(rf), Some(cf)) => match (spec_opt_text(rf), spec_opt_text(cf)) {
            (Some(ro), Some(co)) => Some(FragmentBytesView { role: ro, content: co }),
            _ => None,
        },
        _ => None,
    }
}

/// A member value as optional text: a string gives its bytes, null or an
/// absent member gives nothing, any other shape is refused.
pub open spec fn spec_opt_text(f: SpecField) -> Option<Option<Seq<u8>>> {
    match f {
        SpecField::Str(b) => Some(Some(b)),
        SpecField::Null => Some(None),
        SpecField::Absent => Some(None),
        _ => None,
    }
}

/// A member value as an optional fragment object: an object gives the
/// fragment read from it, null or an absent member gives nothing, any
/// other shape is refused.
pub open spec fn spec_opt_fragment(s: Seq<u8>, f: SpecField, fuel: nat) -> Option<
    Option<FragmentBytesView>,
> {
    match f {
        SpecField::Obj(p) => match spec_fragment_obj(s, p, fuel) {
            Some(fr) => Some(Some(fr)),
            None => None,
        },
        SpecField::Null => Some(None),
        SpecField::Absent => Some(None),
        _ => None,
    }
}

/// The scan fuel spent on a payload of length `n`: ample for any document
/// of that length, since every nested or repeated scan step consumes at
/// least one byte.
pub open spec fn payload_fuel(n: int) -> nat {
    (2 * n + 4) as nat
}

/// What one whole payload line decodes to. The payload must be a single
/// JSON object, nothing but whitespace around it; its `choices` member
/// must be an array; an empty array is the `NoChoices` violation; choice 0
/// must be an object, and its `message`, `delta` and `finish_reason`
/// members, where present, must have the fragment shapes above. Any other
/// payload is `Malformed`.
pub open spec fn spec_parse_payload(s: Seq<u8>) -> PayloadView {
    let fuel = payload_fuel(s.len() as int);
    let i0 = spec_skip_ws(s, 0);
    if i0 >= s.len() || s[i0] != LBRACE {
        PayloadView::Malformed
    } else {
        match spec_skip_value(s, i0, fuel) {
            None => PayloadView::Malformed,
            Some(end) => if spec_skip_ws(s, end) != s.len() {
                PayloadView::Malformed
            } else {
                match spec_member_field(s, spec_skip_ws(s, i0 + 1), key_choices(), fuel) {
                    Some(SpecField::Arr(a)) => {
                        let e0 = spec_skip_ws(s, a + 1);
                        if e0 < s.len() && s[e0] == RBRACKET {
                            PayloadView::NoChoices
                        } else if e0 < s.len() && s[e0] == LBRACE {
                            let body = spec_skip_ws(s, e0 + 1);
                            match (spec_member_field(s, body, key_message(), fuel),
                            spec_member_field(s, body, key_delta(), fuel),
                            spec_member_field(s, body, key_finish_reason(), fuel)) {
                                (Some(mf), Some(df), Some(ff)) => match (spec_opt_fragment(
                                    s,
                                    mf,
                                    fuel,
                                ), spec_opt_fragment(s, df, fuel), spec_opt_text(ff)) {
                                    (Some(m), Some(d), Some(f)) => PayloadView::Record {
                                        message: m,
                                        delta: d,
                                        finish_reason: f,
                                    },
                                    _ => PayloadView::Malformed,
                                },
                                _ => PayloadView::Malformed,
                            }
                        } else {
                            PayloadView::Malformed
                        }
                    },
                    _ => PayloadView::Malformed,
                }
            },
        }
    }
}

/// Executable counterpart of `spec_opt_text`.
fn opt_text(f: Field) -> (r: Option<Option<Vec<u8>>>)
    ensures
        match r {
            Some(o) => spec_opt_text(f@) == Some(view_opt_bytes(o)),
            None => spec_opt_text(f@) is None,
        },
{
    match f {
        Field::Str(b) => Some(Some(b)),
        Field::Null => Some(None),
        Field::Absent => Some(None),
        _ => None,
    }
}

/// Executable fragment-object read; returns exactly what the spec says.
fn fragment_obj(s: &Vec<u8>, obj: usize, fuel: u64) -> (r: Option<FragmentBytes>)
    requires
        obj < s@.len(),
    ensures
        match r {
            Some(fr) => spec_fragment_obj(s@, obj as int, fuel as nat) == Some(fr@),
            None => spec_fragment_obj(s@, obj as int, fuel as nat) is None,
        },
{
    let n = s.len();
    let body = skip_ws(s, obj + 1);
    let role_key = key_role_vec();
    let content_key = key_content_vec();
    let rf = match member_field(s, body, &role_key, fuel) {
        Some(f) => f,
        None => {
            return None;
        },
    };
    let cf = match member_field(s, body, &content_key, fuel) {
        Some(f) => f,
        None => {
            return None;
        },
    };
    let ro = match opt_text(rf) {
        Some(o) => o,
        None => {
            return None;
        },
    };
    let co = match opt_text(cf) {
        Some(o) => o,
        None => {
            return None;
        },
    };
    Some(FragmentBytes { role: ro, content: co })
}

/// Executable counterpart of `spec_opt_fragment`.
fn opt_fragment(s: &Vec<u8>, f: Field, fuel: u64) -> (r: Option<Option<FragmentBytes>>)
    requires
        (f matches Field::Obj(p) ==> p < s@.len()),
    ensures
        match r {
            Some(o) => spec_opt_fragment(s@, f@, fuel as nat) == Some(view_opt_fragment(o)),
            None => spec_opt_fragment(s@, f@, fuel as nat) is None,
        },
{
    match f {
        Field::Obj(p) => match fragment_obj(s, p, fuel) {
            Some(fr) => Some(Some(fr)),
            None => None,
        },
        Field::Null => Some(None),
        Field::Absent => Some(None),
        _ => None,
    }
}

/// Largest payload the executable scanner takes; far beyond any real
/// record line.
pub const MAX_SCAN_LEN: usize = 0x1000_0000;

/// Decode one payload line. Returns exactly what `spec_parse_payload`
/// says of the bytes.
pub fn parse_payload(s: &Vec<u8>) -> (r: Payload)
    requires
        s@.len() <= MAX_SCAN_LEN,
    ensures
        r@ == spec_parse_payload(s@),
{
    let fuel: u64 = 2 * (s.len() as u64) + 4;
    let i0 = skip_ws(s, 0);
    if i0 >= s.len() {
        return Payload::Malformed;
    }
    if s[i0] != LBRACE {
        return Payload::Malformed;
    }
    let end = match skip_value(s, i0, fuel) {
        Some(k) => k,
        None => {
            return Payload::Malformed;
        },
    };
    if skip_ws(s, end) != s.len() {
        return Payload::Malformed;
    }
    let body0 = skip_ws(s, i0 + 1);
    let choices_key = key_choices_vec();
    let a = match member_field(s, body0, &choices_key, fuel) {
        Some(Field::Arr(a)) => a,
        Some(_) => {
            return Payload::Malformed;
        },
        None => {
            return Payload::Malformed;
        },
    };
    let e0 = skip_ws(s, a + 1);
    if e0 < s.len() && s[e0] == RBRACKET {
        return Payload::NoChoices;
    }
    if !(e0 < s.len() && s[e0] == LBRACE) {
        return Payload::Malformed;
    }
    let body = skip_ws(s, e0 + 1);
    let message_key = key_message_vec();
    let delta_key = key_delta_vec();
    let finish_key = key_finish_reason_vec();
    let mf = match member_field(s, body, &message_key, fuel) {
        Some(f) => f,
        None => {
            return Payload::Malformed;
        },
    };
    let df = match member_field(s, body, &delta_key, fuel) {
        Some(f) => f,
        None => {
            return Payload::Malformed;
        },
    };
    let ff = match member_field(s, body, &finish_key, fuel) {
        Some(f) => f,
        None => {
            return Payload::Malformed;
        },
    };
    let m = match opt_fragment(s, mf, fuel) {
        Some(o) => o,
        None => {
            return Payload::Malformed;
        },
    };
    let d = match opt_fragment(s, df, fuel) {
        Some(o) => o,
        None => {
            return Payload::Malformed;
        },
    };
    let f = match opt_text(ff) {
        Some(o) => o,
        None => {
            return Payload::Malformed;
        },
    };
    Payload::Record { message: m, delta: d, finish_reason: f }
}

/// The bytes of `role`, as a vector.
fn key_role_vec() -> (r: Vec<u8>)
    ensures
        r@ == key_role(),
{
    let mut r: Vec<u8> = Vec::new();
    r.push(114);
    r.push(111);
    r.push(108);
    r.push(101);
    proof {
        assert(r@ =~= key_role());
    }
    r
}

/// The bytes of `content`, as a vector.
fn key_content_vec() -> (r: Vec<u8>)
    ensures
        r@ == key_content(),
{
    let mut r: Vec<u8> = Vec::new();
    r.push(99);
    r.push(111);
    r.push(110);
    r.push(116);
    r.push(101);
    r.push(110);
    r.push(116);
    proof {
        assert(r@ =~= key_content());
    }
    r
}

/// The bytes of `choices`, as a vector.
fn key_choices_vec() -> (r: Vec<u8>)
    ensures
        r@ == key_choices(),
{
    let mut r: Vec<u8> = Vec::new();
    r.push(99);
    r.push(104);
    r.push(111);
    r.push(105);
    r.push(99);
    r.push(101);
    r.push(115);
    proof {
        assert(r@ =~= key_choices());
    }
    r
}

/// The bytes of `message`, as a vector.
fn key_message_vec() -> (r: Vec<u8>)
    ensures
        r@ == key_message(),
{
    let mut r: Vec<u8> = Vec::new();
    r.push(109);
    r.push(101);
    r.push(115);
    r.push(115);
    r.push(97);
    r.push(103);
    r.push(101);
    proof {
        assert(r@ =~= key_message());
    }
    r
}

/// The bytes of `delta`, as a vector.
fn key_delta_vec() -> (r: Vec<u8>)
    ensures
        r@ == key_delta(),
{
    let mut r: Vec<u8> = Vec::new();
    r.push(100);
    r.push(101);
    r.push(108);
    r.push(116);
    r.push(97);
    proof {
        assert(r@ =~= key_delta());
    }
    r
}

/// The bytes of `finish_reason`, as a vector.
fn key_finish_reason_vec() -> (r: Vec<u8>)
    ensures
        r@ == key_finish_reason(),
{
    let mut r: Vec<u8> = Vec::new();
    r.push(102);
    r.push(105);
    r.push(110);
    r.push(105);
    r.push(115);
    r.push(104);
    r.push(95);
    r.push(114);
    r.push(101);
    r.push(97);
    r.push(115);
    r.push(111);
    r.push(110);
    proof {
        assert(r@ =~= key_finish_reason());
    }
    r
}

} // verus!
