//! JSON text, byte for byte, and that its objects are correctly nested.
//!
//! A value of these types is a JSON text taken apart. It keeps every byte,
//! the whitespace too, so every JSON text is the text of one of them. The
//! grammar is that of RFC 8259 on bytes; bytes above the ASCII range inside
//! strings are taken as they come.

use vstd::prelude::*;
use crate::machine::{
    BACKSLASH, CLOSE_BRACE, CLOSE_BRACKET, COMMA, OPEN_BRACE, OPEN_BRACKET, QUOTE,
};
use crate::nesting::string_literal;

verus! {

/// `:`
pub const COLON: u8 = 0x3A;

/// Whitespace as JSON has it: space, tab, line feed, carriage return.
pub open spec fn is_json_whitespace(b: u8) -> bool {
    b == 0x20 || b == 0x09 || b == 0x0A || b == 0x0D
}

/// Whether `t` holds JSON whitespace only.
pub open spec fn is_json_blank(t: Seq<u8>) -> bool {
    forall|i: int| 0 <= i < t.len() ==> is_json_whitespace(#[trigger] t[i])
}

/// `0` to `9`.
pub open spec fn is_digit(b: u8) -> bool {
    0x30 <= b <= 0x39
}

/// `0` to `9`, `a` to `f`, `A` to `F`.
pub open spec fn is_hex_digit(b: u8) -> bool {
    is_digit(b) || (0x41 <= b <= 0x46) || (0x61 <= b <= 0x66)
}

/// One digit or more.
pub open spec fn is_digits(t: Seq<u8>) -> bool {
    t.len() > 0 && forall|i: int| 0 <= i < t.len() ==> is_digit(#[trigger] t[i])
}

/// The byte after a backslash in a two-byte escape: one of `"\/bfnrt`.
pub open spec fn is_escape_letter(b: u8) -> bool {
    b == QUOTE || b == BACKSLASH || b == 0x2F || b == 0x62 || b == 0x66 || b == 0x6E || b == 0x72
        || b == 0x74
}

/// What may stand between the quotes of a JSON string: any byte from the
/// space upwards but a quote or a backslash, a two-byte escape, and `\u`
/// followed by four hexadecimal digits.
pub open spec fn is_json_string_body(body: Seq<u8>) -> bool
    decreases body.len(),
{
    if body.len() == 0 {
        true
    } else if body[0] == BACKSLASH {
        if body.len() >= 2 && is_escape_letter(body[1]) {
            is_json_string_body(body.skip(2))
        } else {
            &&& body.len() >= 6
            &&& body[1] == 0x75
            &&& is_hex_digit(body[2])
            &&& is_hex_digit(body[3])
            &&& is_hex_digit(body[4])
            &&& is_hex_digit(body[5])
            &&& is_json_string_body(body.skip(6))
        }
    } else {
        body[0] != QUOTE && body[0] >= 0x20 && is_json_string_body(body.drop_first())
    }
}

/// The exponent of a number: `e` or `E`, a sign or none, digits.
pub struct Exponent {
    pub marker: u8,
    pub sign: Option<u8>,
    pub digits: Seq<u8>,
}

/// A number: a minus sign or none, the digits before the point, the digits
/// after it if there is one, and the exponent if there is one.
pub struct Number {
    pub minus: bool,
    pub whole: Seq<u8>,
    pub fraction: Option<Seq<u8>>,
    pub exponent: Option<Exponent>,
}

impl Exponent {
    pub open spec fn valid(self) -> bool {
        &&& self.marker == 0x65 || self.marker == 0x45
        &&& self.sign matches Some(sign) ==> sign == 0x2B || sign == 0x2D
        &&& is_digits(self.digits)
    }

    pub open spec fn text(self) -> Seq<u8> {
        seq![self.marker] + (match self.sign {
            Some(sign) => seq![sign],
            None => Seq::empty(),
        }) + self.digits
    }
}

impl Number {
    pub open spec fn valid(self) -> bool {
        &&& is_digits(self.whole)
        &&& self.whole.len() > 1 ==> self.whole[0] != 0x30
        &&& self.fraction matches Some(fraction) ==> is_digits(fraction)
        &&& self.exponent matches Some(exponent) ==> exponent.valid()
    }

    pub open spec fn text(self) -> Seq<u8> {
        (if self.minus {
            seq![0x2Du8]
        } else {
            Seq::empty()
        }) + self.whole + (match self.fraction {
            Some(fraction) => seq![0x2Eu8] + fraction,
            None => Seq::empty(),
        }) + (match self.exponent {
            Some(exponent) => exponent.text(),
            None => Seq::empty(),
        })
    }
}

/// A JSON value.
pub enum Json {
    Null,
    True,
    False,
    Number(Number),
    /// A string with this body between its quotes.
    String(Seq<u8>),
    /// An array without elements, with this whitespace between its brackets.
    EmptyArray(Seq<u8>),
    Array(Box<Elements>),
    /// An object without members, with this whitespace between its braces.
    EmptyObject(Seq<u8>),
    Object(Box<Members>),
}

/// A value with the whitespace around it.
pub struct Element {
    pub before: Seq<u8>,
    pub value: Json,
    pub after: Seq<u8>,
}

/// The elements of an array that has one or more, with commas between them.
pub enum Elements {
    Last(Element),
    More(Element, Box<Elements>),
}

/// A member of an object: whitespace, the key, whitespace, a colon, and the
/// value with the whitespace around it.
pub struct Member {
    pub before: Seq<u8>,
    pub key: Seq<u8>,
    pub between: Seq<u8>,
    pub element: Element,
}

/// The members of an object that has one or more, with commas between them.
pub enum Members {
    Last(Member),
    More(Member, Box<Members>),
}

/// `null`
pub open spec fn null_text() -> Seq<u8> {
    seq![0x6Eu8, 0x75u8, 0x6Cu8, 0x6Cu8]
}

/// `true`
pub open spec fn true_text() -> Seq<u8> {
    seq![0x74u8, 0x72u8, 0x75u8, 0x65u8]
}

/// `false`
pub open spec fn false_text() -> Seq<u8> {
    seq![0x66u8, 0x61u8, 0x6Cu8, 0x73u8, 0x65u8]
}

impl Json {
    /// Whether the value is JSON.
    pub open spec fn valid(self) -> bool
        decreases self,
    {
        match self {
            Json::Null | Json::True | Json::False => true,
            Json::Number(n) => n.valid(),
            Json::String(body) => is_json_string_body(body),
            Json::EmptyArray(blank) => is_json_blank(blank),
            Json::Array(elements) => elements.valid(),
            Json::EmptyObject(blank) => is_json_blank(blank),
            Json::Object(members) => members.valid(),
        }
    }

    /// The bytes of the value.
    pub open spec fn text(self) -> Seq<u8>
        decreases self,
    {
        match self {
            Json::Null => null_text(),
            Json::True => true_text(),
            Json::False => false_text(),
            Json::Number(n) => n.text(),
            Json::String(body) => string_literal(body),
            Json::EmptyArray(blank) => seq![OPEN_BRACKET] + blank + seq![CLOSE_BRACKET],
            Json::Array(elements) => seq![OPEN_BRACKET] + elements.text() + seq![CLOSE_BRACKET],
            Json::EmptyObject(blank) => seq![OPEN_BRACE] + blank + seq![CLOSE_BRACE],
            Json::Object(members) => seq![OPEN_BRACE] + members.text() + seq![CLOSE_BRACE],
        }
    }

    /// Whether the value is an object.
    pub open spec fn is_object(self) -> bool {
        self is Object || self is EmptyObject
    }
}

impl Element {
    pub open spec fn valid(self) -> bool
        decreases self,
    {
        is_json_blank(self.before) && self.value.valid() && is_json_blank(self.after)
    }

    pub open spec fn text(self) -> Seq<u8>
        decreases self,
    {
        self.before + self.value.text() + self.after
    }
}

impl Elements {
    pub open spec fn valid(self) -> bool
        decreases self,
    {
        match self {
            Elements::Last(e) => e.valid(),
            Elements::More(e, more) => e.valid() && more.valid(),
        }
    }

    pub open spec fn text(self) -> Seq<u8>
        decreases self,
    {
        match self {
            Elements::Last(e) => e.text(),
            Elements::More(e, more) => e.text() + seq![COMMA] + more.text(),
        }
    }
}

impl Member {
    pub open spec fn valid(self) -> bool
        decreases self,
    {
        &&& is_json_blank(self.before)
        &&& is_json_string_body(self.key)
        &&& is_json_blank(self.between)
        &&& self.element.valid()
    }

    pub open spec fn text(self) -> Seq<u8>
        decreases self,
    {
        self.before + string_literal(self.key) + self.between + seq![COLON] + self.element.text()
    }
}

impl Members {
    pub open spec fn valid(self) -> bool
        decreases self,
    {
        match self {
            Members::Last(m) => m.valid(),
            Members::More(m, more) => m.valid() && more.valid(),
        }
    }

    pub open spec fn text(self) -> Seq<u8>
        decreases self,
    {
        match self {
            Members::Last(m) => m.text(),
            Members::More(m, more) => m.text() + seq![COMMA] + more.text(),
        }
    }
}

} // verus!
