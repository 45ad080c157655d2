//! Opaque page cursors.
//!
//! A cursor names a position in a chat's chronological message list: the sort
//! key `(created_at, id)` of a message, and the direction in which to read on
//! from it. Its token is a string of 49 ASCII characters: `f` (forward) or `b`
//! (backward), then `created_at` as 16 lower-case hex digits, then `id` as 32
//! lower-case hex digits.

use vstd::prelude::*;

verus! {

/// The direction in which a cursor continues reading.
#[derive(Clone, Copy, Debug, PartialEq, Eq, Structural)]
pub enum Direction {
    /// The items after the cursor's key.
    Forward,
    /// The items before the cursor's key.
    Backward,
}

/// A decoded page cursor.
#[derive(Clone, Copy, Debug, PartialEq, Eq, Structural)]
pub struct CursorV1 {
    pub created_at: u64,
    pub id: u128,
    pub direction: Direction,
}

/// Why a token is not a cursor.
#[derive(Clone, Copy, Debug, PartialEq, Eq, Structural)]
pub enum CursorError {
    /// Wrong length, unknown direction letter, or a character that is not a
    /// lower-case hex digit.
    Malformed,
}

/// Number of characters in a cursor token.
pub const TOKEN_LEN: usize = 49;

pub open spec fn pow16(n: nat) -> nat
    decreases n,
{
    if n == 0 {
        1
    } else {
        16 * pow16((n - 1) as nat)
    }
}

/// The lower-case hex digit for `d` (`0 <= d < 16`).
pub open spec fn hex_char(d: int) -> char {
    if d < 10 {
        (48 + d) as char
    } else {
        (87 + d) as char
    }
}

pub open spec fn is_hex_char(c: char) -> bool {
    (48 <= c as int <= 57) || (97 <= c as int <= 102)
}

/// The value of a lower-case hex digit.
pub open spec fn hex_val(c: char) -> int {
    if c as int <= 57 {
        c as int - 48
    } else {
        c as int - 87
    }
}

pub open spec fn all_hex(s: Seq<char>) -> bool {
    forall|i: int| 0 <= i < s.len() ==> is_hex_char(#[trigger] s[i])
}

/// The `n` lowest hex digits of `v`, most significant first.
pub open spec fn hex_digits(v: nat, n: nat) -> Seq<char>
    decreases n,
{
    if n == 0 {
        Seq::empty()
    } else {
        hex_digits(v / 16, (n - 1) as nat).push(hex_char((v % 16) as int))
    }
}

/// The number that a string of hex digits denotes.
pub open spec fn hex_value(s: Seq<char>) -> nat
    decreases s.len(),
{
    if s.len() == 0 {
        0
    } else {
        hex_value(s.drop_last()) * 16 + hex_val(s.last()) as nat
    }
}

pub open spec fn direction_char(d: Direction) -> char {
    match d {
        Direction::Forward => 'f',
        Direction::Backward => 'b',
    }
}

/// The token of a cursor.
pub open spec fn cursor_token(c: CursorV1) -> Seq<char> {
    seq![direction_char(c.direction)] + hex_digits(c.created_at as nat, 16) + hex_digits(
        c.id as nat,
        32,
    )
}

/// The cursor that a token denotes, if it is one.
pub open spec fn token_cursor(t: Seq<char>) -> Option<CursorV1> {
    if t.len() == 49 && (t[0] == 'f' || t[0] == 'b') && all_hex(t.subrange(1, 49)) {
        Some(
            CursorV1 {
                created_at: hex_value(t.subrange(1, 17)) as u64,
                id: hex_value(t.subrange(17, 49)) as u128,
                direction: if t[0] == 'f' {
                    Direction::Forward
                } else {
                    Direction::Backward
                },
            },
        )
    } else {
        None
    }
}

proof fn lemma_pow16_bounds()
    ensures
        pow16(16) == 0x1_0000_0000_0000_0000,
        pow16(32) == 0x1_0000_0000_0000_0000_0000_0000_0000_0000,
{
    reveal_with_fuel(pow16, 33);
}

proof fn lemma_hex_digits_shape(v: nat, n: nat)
    ensures
        hex_digits(v, n).len() == n,
        all_hex(hex_digits(v, n)),
    decreases n,
{
    if n > 0 {
        lemma_hex_digits_shape(v / 16, (n - 1) as nat);
        let d = (v % 16) as int;
        assert(is_hex_char(hex_char(d)));
        assert(all_hex(hex_digits(v, n))) by {
            let s = hex_digits(v, n);
            assert forall|i: int| 0 <= i < s.len() implies is_hex_char(#[trigger] s[i]) by {
                if i < n - 1 {
                    assert(s[i] == hex_digits(v / 16, (n - 1) as nat)[i]);
                }
            }
        }
    }
}

proof fn lemma_hex_value_bound(s: Seq<char>)
    requires
        all_hex(s),
    ensures
        hex_value(s) < pow16(s.len()),
    decreases s.len(),
{
    if s.len() > 0 {
        let p = s.drop_last();
        assert(all_hex(p)) by {
            assert forall|i: int| 0 <= i < p.len() implies is_hex_char(#[trigger] p[i]) by {
                assert(p[i] == s[i]);
            }
        }
        lemma_hex_value_bound(p);
        assert(is_hex_char(s[s.len() - 1]));
        assert(0 <= hex_val(s.last()) < 16);
    }
}

/// Reading back the digits of `v` gives `v`, when `v` fits in `n` digits.
proof fn lemma_hex_value_of_digits(v: nat, n: nat)
    requires
        v < pow16(n),
    ensures
        hex_value(hex_digits(v, n)) == v,
    decreases n,
{
    if n > 0 {
        lemma_hex_value_of_digits(v / 16, (n - 1) as nat);
        let s = hex_digits(v, n);
        assert(s.drop_last() =~= hex_digits(v / 16, (n - 1) as nat));
        let d = (v % 16) as int;
        assert(hex_val(hex_char(d)) == d);
    }
}

/// Writing out the value of `n` hex digits gives those digits back.
proof fn lemma_hex_digits_of_value(s: Seq<char>)
    requires
        all_hex(s),
    ensures
        hex_digits(hex_value(s), s.len()) == s,
    decreases s.len(),
{
    if s.len() > 0 {
        let p = s.drop_last();
        assert(all_hex(p)) by {
            assert forall|i: int| 0 <= i < p.len() implies is_hex_char(#[trigger] p[i]) by {
                assert(p[i] == s[i]);
            }
        }
        lemma_hex_digits_of_value(p);
        let c = s.last();
        assert(is_hex_char(s[s.len() - 1]));
        let v = hex_value(s);
        assert(v / 16 == hex_value(p));
        assert(v % 16 == hex_val(c));
        assert(hex_char(hex_val(c)) == c);
        assert(hex_digits(v, s.len()) =~= s);
    }
}

/// Decoding the token of a cursor gives the cursor back.
pub proof fn lemma_token_roundtrip(c: CursorV1)
    ensures
        token_cursor(cursor_token(c)) == Some(c),
{
    let t = cursor_token(c);
    let a = hex_digits(c.created_at as nat, 16);
    let b = hex_digits(c.id as nat, 32);
    lemma_hex_digits_shape(c.created_at as nat, 16);
    lemma_hex_digits_shape(c.id as nat, 32);
    lemma_pow16_bounds();
    lemma_hex_value_of_digits(c.created_at as nat, 16);
    lemma_hex_value_of_digits(c.id as nat, 32);
    assert(t.subrange(1, 17) =~= a);
    assert(t.subrange(17, 49) =~= b);
    assert(t.subrange(1, 49) =~= a + b);
    assert(all_hex(a + b)) by {
        assert forall|i: int| 0 <= i < (a + b).len() implies is_hex_char(#[trigger] (a + b)[i]) by {
            if i < 16 {
                assert((a + b)[i] == a[i]);
            } else {
                assert((a + b)[i] == b[i - 16]);
            }
        }
    }
}

/// A token that decodes is the token of the cursor it decodes to: tokens are
/// canonical, so two different tokens never name the same cursor.
pub proof fn lemma_token_canonical(t: Seq<char>)
    requires
        token_cursor(t) is Some,
    ensures
        cursor_token(token_cursor(t).unwrap()) == t,
{
    let c = token_cursor(t).unwrap();
    let a = t.subrange(1, 17);
    let b = t.subrange(17, 49);
    let ab = t.subrange(1, 49);
    assert(all_hex(a)) by {
        assert forall|i: int| 0 <= i < a.len() implies is_hex_char(#[trigger] a[i]) by {
            assert(a[i] == ab[i]);
        }
    }
    assert(all_hex(b)) by {
        assert forall|i: int| 0 <= i < b.len() implies is_hex_char(#[trigger] b[i]) by {
            assert(b[i] == ab[i + 16]);
        }
    }
    lemma_pow16_bounds();
    lemma_hex_value_bound(a);
    lemma_hex_value_bound(b);
    lemma_hex_digits_of_value(a);
    lemma_hex_digits_of_value(b);
    assert(cursor_token(c) =~= t);
}

/// The one-character string of the hex digit `d`.
fn hex_digit_str(d: u8) -> (s: &'static str)
    requires
        d < 16,
    ensures
        s@ == seq![hex_char(d as int)],
{
    let s = if d == 0 {
        proof { reveal_strlit("0"); }
        "0"
    } else if d == 1 {
        proof { reveal_strlit("1"); }
        "1"
    } else if d == 2 {
        proof { reveal_strlit("2"); }
        "2"
    } else if d == 3 {
        proof { reveal_strlit("3"); }
        "3"
    } else if d == 4 {
        proof { reveal_strlit("4"); }
        "4"
    } else if d == 5 {
        proof { reveal_strlit("5"); }
        "5"
    } else if d == 6 {
        proof { reveal_strlit("6"); }
        "6"
    } else if d == 7 {
        proof { reveal_strlit("7"); }
        "7"
    } else if d == 8 {
        proof { reveal_strlit("8"); }
        "8"
    } else if d == 9 {
        proof { reveal_strlit("9"); }
        "9"
    } else if d == 10 {
        proof { reveal_strlit("a"); }
        "a"
    } else if d == 11 {
        proof { reveal_strlit("b"); }
        "b"
    } else if d == 12 {
        proof { reveal_strlit("c"); }
        "c"
    } else if d == 13 {
        proof { reveal_strlit("d"); }
        "d"
    } else if d == 14 {
        proof { reveal_strlit("e"); }
        "e"
    } else {
        proof { reveal_strlit("f"); }
        "f"
    };
    assert(s@ =~= seq![hex_char(d as int)]);
    s
}

/// Appends the `n` lowest hex digits of `v` to `out`.
fn push_hex(out: &mut String, v: u128, n: usize)
    ensures
        final(out)@ == old(out)@ + hex_digits(v as nat, n as nat),
    decreases n,
{
    if n > 0 {
        push_hex(out, v / 16, n - 1);
        let d = (v % 16) as u8;
        out.append(hex_digit_str(d));
        assert(final(out)@ =~= old(out)@ + hex_digits(v as nat, n as nat));
    }
}

/// Reads `n` hex digits of `t` from position `from`.
fn parse_hex(t: &str, from: usize, n: usize) -> (r: Option<u128>)
    requires
        n <= 32,
        from + n <= t@.len(),
        from + n <= usize::MAX,
    ensures
        r is Some <==> all_hex(t@.subrange(from as int, from + n)),
        r matches Some(v) ==> v == hex_value(t@.subrange(from as int, from + n)),
{
    let mut acc: u128 = 0;
    let mut i: usize = 0;
    proof {
        lemma_pow16_bounds();
    }
    while i < n
        invariant
            i <= n <= 32,
            from + n <= t@.len(),
            from + n <= usize::MAX,
            all_hex(t@.subrange(from as int, from + i)),
            acc == hex_value(t@.subrange(from as int, from + i)),
            acc < pow16(i as nat),
            pow16(32) == 0x1_0000_0000_0000_0000_0000_0000_0000_0000,
        decreases n - i,
    {
        let c = t.get_char(from + i);
        let code = c as u32;
        let d: u128 = if 48 <= code && code <= 57 {
            (code - 48) as u128
        } else if 97 <= code && code <= 102 {
            (code - 87) as u128
        } else {
            assert(!all_hex(t@.subrange(from as int, from + n))) by {
                assert(t@.subrange(from as int, from + n)[i as int] == c);
            }
            return None;
        };
        let ghost prefix = t@.subrange(from as int, from + i);
        let ghost next = t@.subrange(from as int, from + i + 1);
        assert(next.drop_last() =~= prefix);
        assert(next.last() == c);
        proof {
            lemma_pow16_monotone(i as nat + 1, 32);
            assert(acc * 16 + d < pow16(i as nat + 1)) by (nonlinear_arith)
                requires
                    acc < pow16(i as nat),
                    d < 16,
                    pow16(i as nat + 1) == 16 * pow16(i as nat),
            ;
        }
        acc = acc * 16 + d;
        assert(all_hex(next)) by {
            assert forall|j: int| 0 <= j < next.len() implies is_hex_char(#[trigger] next[j]) by {
                if j < i {
                    assert(next[j] == prefix[j]);
                }
            }
        }
        i = i + 1;
    }
    Some(acc)
}

proof fn lemma_pow16_monotone(a: nat, b: nat)
    requires
        a <= b,
    ensures
        pow16(a) <= pow16(b),
    decreases b,
{
    if a < b {
        lemma_pow16_monotone(a, (b - 1) as nat);
    }
}

impl CursorV1 {
    /// The cursor's token.
    pub fn encode(&self) -> (t: String)
        ensures
            t@ == cursor_token(*self),
    {
        let mut t = String::new();
        match self.direction {
            Direction::Forward => {
                proof { reveal_strlit("f"); }
                t.append("f");
            },
            Direction::Backward => {
                proof { reveal_strlit("b"); }
                t.append("b");
            },
        }
        assert(t@ =~= seq![direction_char(self.direction)]);
        push_hex(&mut t, self.created_at as u128, 16);
        push_hex(&mut t, self.id, 32);
        t
    }

    /// The cursor that a token names; `Malformed` when it names none.
    pub fn decode(token: &str) -> (r: Result<CursorV1, CursorError>)
        ensures
            r == (match token_cursor(token@) {
                Some(c) => Ok(c),
                None => Err(CursorError::Malformed),
            }),
    {
        let len = token.unicode_len();
        if len != TOKEN_LEN {
            return Err(CursorError::Malformed);
        }
        let first = token.get_char(0);
        let direction = if first == 'f' {
            Direction::Forward
        } else if first == 'b' {
            Direction::Backward
        } else {
            return Err(CursorError::Malformed);
        };
        let ghost t = token@;
        let created = parse_hex(token, 1, 16);
        let id = parse_hex(token, 17, 32);
        proof {
            let a = t.subrange(1, 17);
            let b = t.subrange(17, 49);
            let ab = t.subrange(1, 49);
            assert(all_hex(ab) <==> all_hex(a) && all_hex(b)) by {
                if all_hex(ab) {
                    assert forall|i: int| 0 <= i < a.len() implies is_hex_char(#[trigger] a[i]) by {
                        assert(a[i] == ab[i]);
                    }
                    assert forall|i: int| 0 <= i < b.len() implies is_hex_char(#[trigger] b[i]) by {
                        assert(b[i] == ab[i + 16]);
                    }
                }
                if all_hex(a) && all_hex(b) {
                    assert forall|i: int| 0 <= i < ab.len() implies is_hex_char(#[trigger] ab[i]) by {
                        if i < 16 {
                            assert(ab[i] == a[i]);
                        } else {
                            assert(ab[i] == b[i - 16]);
                        }
                    }
                }
            }
            if all_hex(a) {
                lemma_hex_value_bound(a);
                lemma_pow16_bounds();
            }
        }
        match (created, id) {
            (Some(c), Some(i)) => Ok(CursorV1 { created_at: c as u64, id: i, direction }),
            _ => Err(CursorError::Malformed),
        }
    }
}

} // verus!
