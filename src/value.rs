use vstd::prelude::*;
use crate::type_def::{spec_boolean, spec_bytes, spec_integer, spec_null, TypeDef};

verus! {

/// A runtime value.
#[derive(Clone, Debug, PartialEq, Eq)]
pub enum Value {
    Bytes(Vec<u8>),
    Integer(i64),
    Boolean(bool),
    Null,
}

/// The mathematical content of a value.
pub enum Val {
    Bytes(Seq<u8>),
    Integer(i64),
    Boolean(bool),
    Null,
}

/// The type of a value: its one kind, infallible.
pub open spec fn value_type(v: Value) -> TypeDef {
    match v {
        Value::Bytes(_) => spec_bytes(),
        Value::Integer(_) => spec_integer(),
        Value::Boolean(_) => spec_boolean(),
        Value::Null => spec_null(),
    }
}

/// A failure that only shows on a given event's data.
#[derive(Clone, Copy, Debug, PartialEq, Eq, Structural)]
pub enum ExpressionError {
    /// A string that does not hold a decimal integer was read as one.
    InvalidInteger,
    /// A field that the program reads is not in the event.
    MissingField,
    /// An operand's kind does not fit the operation.
    WrongKind,
}

impl Value {
    /// The type of this value.
    pub fn type_def(&self) -> (r: TypeDef)
        ensures
            r == value_type(*self),
    {
        match self {
            Value::Bytes(_) => TypeDef::bytes(),
            Value::Integer(_) => TypeDef::integer(),
            Value::Boolean(_) => TypeDef::boolean(),
            Value::Null => TypeDef::null(),
        }
    }

    pub open spec fn view(&self) -> Val {
        match *self {
            Value::Bytes(b) => Val::Bytes(b@),
            Value::Integer(n) => Val::Integer(n),
            Value::Boolean(b) => Val::Boolean(b),
            Value::Null => Val::Null,
        }
    }

    /// A copy of the value.
    pub fn copy(&self) -> (r: Value)
        ensures
            r@ == self@,
    {
        match self {
            Value::Bytes(b) => Value::Bytes(b.clone()),
            Value::Integer(n) => Value::Integer(*n),
            Value::Boolean(b) => Value::Boolean(*b),
            Value::Null => Value::Null,
        }
    }
}

pub open spec fn is_digit(c: u8) -> bool {
    48 <= c <= 57
}

/// The number that a string of decimal digits writes.
pub open spec fn digits_value(s: Seq<u8>) -> int
    decreases s.len(),
{
    if s.len() == 0 {
        0
    } else {
        digits_value(s.drop_last()) * 10 + (s.last() - 48)
    }
}

pub open spec fn all_digits(s: Seq<u8>) -> bool {
    s.len() > 0 && forall|i: int| 0 <= i < s.len() ==> is_digit(#[trigger] s[i])
}

/// The integer that a string writes in decimal, with an optional leading
/// minus sign, if it writes one.
pub open spec fn decimal_of(s: Seq<u8>) -> Option<int> {
    if s.len() > 0 && s[0] == 45 {
        if all_digits(s.drop_first()) {
            Some(-digits_value(s.drop_first()))
        } else {
            None
        }
    } else if all_digits(s) {
        Some(digits_value(s))
    } else {
        None
    }
}

proof fn lemma_digits_value_nonneg(s: Seq<u8>)
    requires
        forall|i: int| 0 <= i < s.len() ==> is_digit(#[trigger] s[i]),
    ensures
        digits_value(s) >= 0,
    decreases s.len(),
{
    if s.len() > 0 {
        lemma_digits_value_nonneg(s.drop_last());
    }
}

/// Reads the digits `s[start..]`; `None` when the number passes `limit`.
fn read_digits(s: &Vec<u8>, start: usize, limit: u64) -> (r: Option<u64>)
    requires
        start < s@.len(),
        all_digits(s@.subrange(start as int, s@.len() as int)),
    ensures
        match r {
            Some(n) => n == digits_value(s@.subrange(start as int, s@.len() as int)) && n <= limit,
            None => digits_value(s@.subrange(start as int, s@.len() as int)) > limit,
        },
{
    let ghost d = s@.subrange(start as int, s@.len() as int);
    let mut acc: u64 = 0;
    let mut i: usize = start;
    while i < s.len()
        invariant
            start <= i <= s@.len(),
            d == s@.subrange(start as int, s@.len() as int),
            all_digits(d),
            acc == digits_value(s@.subrange(start as int, i as int)),
            acc <= limit,
        decreases s@.len() - i,
    {
        let ghost prefix = s@.subrange(start as int, i as int);
        let ghost next = s@.subrange(start as int, i + 1);
        assert(next.drop_last() == prefix);
        assert(next.last() == s@[i as int]);
        assert(is_digit(d[i - start]));
        let digit = (s[i] - 48) as u64;
        let grown = match acc.checked_mul(10) {
            Some(m) => m.checked_add(digit),
            None => None,
        };
        match grown {
            Some(g) if g <= limit => {
                acc = g;
            },
            _ => {
                proof {
                    lemma_tail_at_least(s@, start as int, i + 1);
                }
                return None;
            },
        }
        i += 1;
    }
    Some(acc)
}

/// A longer run of digits writes a number at least as large.
proof fn lemma_tail_at_least(s: Seq<u8>, start: int, j: int)
    requires
        0 <= start < j <= s.len(),
        all_digits(s.subrange(start, s.len() as int)),
    ensures
        digits_value(s.subrange(start, s.len() as int)) >= digits_value(s.subrange(start, j)),
    decreases s.len() - j,
{
    if j < s.len() {
        lemma_tail_at_least(s, start, j + 1);
        let next = s.subrange(start, j + 1);
        assert(next.drop_last() == s.subrange(start, j));
        assert(is_digit(s.subrange(start, s.len() as int)[j - start]));
        lemma_digits_value_nonneg(s.subrange(start, j));
    }
    assert(s.subrange(start, s.len() as int) == s.subrange(start, s.len() as int));
}

/// Reads a decimal integer with an optional leading minus sign.
pub fn parse_decimal(s: &Vec<u8>) -> (r: Result<i64, ExpressionError>)
    ensures
        match r {
            Ok(n) => decimal_of(s@) == Some(n as int),
            Err(e) => e == ExpressionError::InvalidInteger && (decimal_of(s@) is None
                || decimal_of(s@)->0 < i64::MIN || decimal_of(s@)->0 > i64::MAX),
        },
{
    let negative = s.len() > 0 && s[0] == 45;
    let start: usize = if negative { 1 } else { 0 };
    if start >= s.len() {
        proof {
            if negative {
                assert(!all_digits(s@.drop_first()));
            }
        }
        return Err(ExpressionError::InvalidInteger);
    }
    let mut i: usize = start;
    while i < s.len()
        invariant
            start <= i <= s@.len(),
            forall|j: int| start <= j < i ==> is_digit(#[trigger] s@[j]),
            negative == (s@.len() > 0 && s@[0] == 45),
            start == (if negative { 1usize } else { 0usize }),
        decreases s@.len() - i,
    {
        let c = s[i];
        if c < 48 || c > 57 {
            proof {
                if negative {
                    assert(s@.drop_first()[i - 1] == s@[i as int]);
                    assert(!is_digit(s@.drop_first()[i - 1]));
                } else {
                    assert(!is_digit(s@[i as int]));
                }
            }
            return Err(ExpressionError::InvalidInteger);
        }
        i += 1;
    }
    let ghost d = s@.subrange(start as int, s@.len() as int);
    assert(all_digits(d)) by {
        assert forall|j: int| 0 <= j < d.len() implies is_digit(#[trigger] d[j]) by {
            assert(d[j] == s@[j + start]);
        }
    }
    if negative {
        assert(s@.drop_first() == d);
        match read_digits(s, start, 9223372036854775808u64) {
            Some(n) => {
                if n == 9223372036854775808u64 {
                    Ok(i64::MIN)
                } else {
                    Ok(-(n as i64))
                }
            },
            None => Err(ExpressionError::InvalidInteger),
        }
    } else {
        assert(s@ == d);
        match read_digits(s, start, 9223372036854775807u64) {
            Some(n) => Ok(n as i64),
            None => Err(ExpressionError::InvalidInteger),
        }
    }
}

} // verus!
