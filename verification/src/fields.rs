//! Typed field values as the tracing adapter hands them in, and the one
//! value-coercion policy every visitor shares: integers up to 64 bits stay
//! numbers, 128-bit integers fall back to decimal strings when they do not
//! fit, byte slices become lower-case hex, debug and error renderings become
//! strings, and floating-point values arrive as pre-rendered number tokens.

use vstd::prelude::*;
use crate::json::{JsonValue, Jv, sv, dec_u, dec_int, hex_char, num_token_ok, hex_exec, write_u128, write_i128};


verus! {

/// A field value as recorded by the tracing adapter. `Float` carries the
/// caller's rendering of the number (`None` when the value is not finite);
/// `Debug` and `Error` carry the caller's debug and display renderings.
#[derive(Clone, Debug, PartialEq)]
pub enum FieldValue {
    I64(i64),
    U64(u64),
    I128(i128),
    U128(u128),
    Bool(bool),
    Bytes(Vec<u8>),
    Str(String),
    Float(Option<String>),
    Debug(String),
    Error(String),
}

/// Spec-level mirror of `FieldValue`.
pub enum Fv {
    Int(int),
    Int128(int),
    Uint128(int),
    Bool(bool),
    Bytes(Seq<u8>),
    Str(Seq<char>),
    Float(Option<Seq<char>>),
}

/// The spec value denoted by a field value. Debug and error renderings are
/// plain strings by the coercion policy, so they map to `Str`.
pub open spec fn fv(v: FieldValue) -> Fv {
    match v {
        FieldValue::I64(n) => Fv::Int(n as int),
        FieldValue::U64(n) => Fv::Int(n as int),
        FieldValue::I128(n) => Fv::Int128(n as int),
        FieldValue::U128(n) => Fv::Uint128(n as int),
        FieldValue::Bool(b) => Fv::Bool(b),
        FieldValue::Bytes(b) => Fv::Bytes(b@),
        FieldValue::Str(s) => Fv::Str(s@),
        FieldValue::Float(t) => Fv::Float(match t {
            Option::Some(s) => Option::Some(s@),
            Option::None => Option::None,
        }),
        FieldValue::Debug(s) => Fv::Str(s@),
        FieldValue::Error(s) => Fv::Str(s@),
    }
}

/// A float token must be a plausible JSON number; everything else is
/// well-formed as it stands.
pub open spec fn fv_wf(v: Fv) -> bool {
    match v {
        Fv::Float(t) => match t {
            Option::Some(s) => num_token_ok(s),
            Option::None => true,
        },
        _ => true,
    }
}

/// Two lower-case hex digits for one byte.
pub open spec fn byte_hex(b: u8) -> Seq<char> {
    seq![hex_char(b as int / 16), hex_char(b as int % 16)]
}

/// Lower-case hex of a byte sequence, no separators, no prefix.
pub open spec fn hex_of(bytes: Seq<u8>) -> Seq<char>
    decreases bytes.len(),
{
    if bytes.len() == 0 { Seq::<char>::empty() } else { hex_of(bytes.drop_last()) + byte_hex(bytes.last()) }
}

/// The coercion policy: what JSON scalar a field value becomes.
pub open spec fn coerce_spec(v: Fv) -> Jv {
    match v {
        Fv::Int(n) => Jv::Int(n),
        Fv::Int128(n) => if -0x8000_0000_0000_0000 <= n < 0x8000_0000_0000_0000 {
            Jv::Int(n)
        } else {
            Jv::Str(dec_int(n))
        },
        Fv::Uint128(n) => if n < 0x1_0000_0000_0000_0000 { Jv::Int(n) } else { Jv::Str(dec_u(n as nat)) },
        Fv::Bool(b) => Jv::Bool(b),
        Fv::Bytes(b) => Jv::Str(hex_of(b)),
        Fv::Str(s) => Jv::Str(s),
        Fv::Float(t) => match t {
            Option::Some(s) => Jv::Num(s),
            Option::None => Jv::Null,
        },
    }
}

/// Hex-encode a byte vector.
pub fn hex_string(bytes: &Vec<u8>) -> (r: String)
    ensures
        r@ == hex_of(bytes@),
{
    let mut buf = String::new();
    let n: usize = bytes.len();
    let mut i: usize = 0;
    proof {
        assert(hex_of(bytes@.take(0)) =~= Seq::<char>::empty());
    }
    while i < n
        invariant
            i <= n,
            n == bytes@.len(),
            buf@ == hex_of(bytes@.take(i as int)),
        decreases n - i,
    {
        let b: u8 = bytes[i];
        crate::ext::push_char(&mut buf, hex_exec((b / 16) as u32));
        crate::ext::push_char(&mut buf, hex_exec((b % 16) as u32));
        proof {
            assert(bytes@.take(i + 1).drop_last() =~= bytes@.take(i as int));
            assert(bytes@.take(i + 1).last() == bytes@[i as int]);
            assert(buf@ =~= hex_of(bytes@.take(i + 1)));
        }
        i = i + 1;
    }
    proof {
        assert(bytes@.take(n as int) =~= bytes@);
    }
    buf
}

/// Decimal rendering of a 64-bit unsigned value.
pub fn u64_to_string(n: u64) -> (r: String)
    ensures
        r@ == dec_u(n as nat),
{
    let mut buf = String::new();
    crate::json::write_u64(&mut buf, n);
    buf
}

/// Decimal rendering of a 128-bit unsigned value.
pub fn u128_to_string(n: u128) -> (r: String)
    ensures
        r@ == dec_u(n as nat),
{
    let mut buf = String::new();
    write_u128(&mut buf, n);
    buf
}

/// Decimal rendering of a 128-bit signed value.
pub fn i128_to_string(n: i128) -> (r: String)
    ensures
        r@ == dec_int(n as int),
{
    let mut buf = String::new();
    write_i128(&mut buf, n);
    buf
}

/// Apply the coercion policy to one field value.
pub fn coerce(v: &FieldValue) -> (r: JsonValue)
    ensures
        sv(r) == coerce_spec(fv(*v)),
{
    match v {
        FieldValue::I64(n) => JsonValue::I64(*n),
        FieldValue::U64(n) => JsonValue::U64(*n),
        FieldValue::I128(n) => {
            if i64::MIN as i128 <= *n && *n <= i64::MAX as i128 {
                JsonValue::I64(*n as i64)
            } else {
                JsonValue::Str(i128_to_string(*n))
            }
        },
        FieldValue::U128(n) => {
            if *n <= u64::MAX as u128 {
                JsonValue::U64(*n as u64)
            } else {
                JsonValue::Str(u128_to_string(*n))
            }
        },
        FieldValue::Bool(b) => JsonValue::Bool(*b),
        FieldValue::Bytes(b) => JsonValue::Str(hex_string(b)),
        FieldValue::Str(s) => JsonValue::Str(s.clone()),
        FieldValue::Float(t) => {
            match t {
                Option::Some(s) => JsonValue::Num(s.clone()),
                Option::None => JsonValue::Null,
            }
        },
        FieldValue::Debug(s) => JsonValue::Str(s.clone()),
        FieldValue::Error(s) => JsonValue::Str(s.clone()),
    }
}

/// A tracing verbosity level.
#[derive(Clone, Copy, Debug, PartialEq, Eq, Structural)]
pub enum Level {
    Trace,
    Debug,
    Info,
    Warn,
    Error,
}

/// The upper-case name of a level, as it appears in the output line.
pub open spec fn level_chars(l: Level) -> Seq<char> {
    match l {
        Level::Trace => seq!['T', 'R', 'A', 'C', 'E'],
        Level::Debug => seq!['D', 'E', 'B', 'U', 'G'],
        Level::Info => seq!['I', 'N', 'F', 'O'],
        Level::Warn => seq!['W', 'A', 'R', 'N'],
        Level::Error => seq!['E', 'R', 'R', 'O', 'R'],
    }
}

impl Level {
    /// The upper-case level string.
    pub fn as_str(&self) -> (r: &'static str)
        ensures
            r@ == level_chars(*self),
    {
        match self {
            Level::Trace => {
                let s = "TRACE";
                proof {
                    reveal_strlit("TRACE");
                    assert(s@ =~= level_chars(Level::Trace));
                }
                s
            },
            Level::Debug => {
                let s = "DEBUG";
                proof {
                    reveal_strlit("DEBUG");
                    assert(s@ =~= level_chars(Level::Debug));
                }
                s
            },
            Level::Info => {
                let s = "INFO";
                proof {
                    reveal_strlit("INFO");
                    assert(s@ =~= level_chars(Level::Info));
                }
                s
            },
            Level::Warn => {
                let s = "WARN";
                proof {
                    reveal_strlit("WARN");
                    assert(s@ =~= level_chars(Level::Warn));
                }
                s
            },
            Level::Error => {
                let s = "ERROR";
                proof {
                    reveal_strlit("ERROR");
                    assert(s@ =~= level_chars(Level::Error));
                }
                s
            },
        }
    }
}

} // verus!
