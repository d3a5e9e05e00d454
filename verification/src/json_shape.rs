//! Every JSON value is correctly nested content: its strings are strings as
//! the machine sees them, and everything else in it but its objects' braces is
//! bytes that stand for themselves.

use vstd::prelude::*;
use crate::json::{
    false_text, is_digit, is_digits, is_escape_letter, is_json_blank, is_json_string_body,
    is_json_whitespace, null_text, true_text, Element, Elements, Exponent, Json, Member, Members,
    Number, COLON,
};
use crate::machine::{
    is_separator, BACKSLASH, CLOSE_BRACE, CLOSE_BRACKET, COMMA, OPEN_BRACE, OPEN_BRACKET,
};
use crate::nesting::{
    is_gap, is_plain, is_string_body, object_text, rendered, string_literal, well_nested, Content,
};

verus! {

/// Whether every byte of `t` stands for itself outside strings.
pub open spec fn all_plain(t: Seq<u8>) -> bool {
    forall|i: int| 0 <= i < t.len() ==> is_plain(#[trigger] t[i])
}

/// The bytes of `t`, each a piece of its own, followed by `rest`.
pub open spec fn plain(t: Seq<u8>, rest: Content) -> Content
    decreases t.len(),
{
    if t.len() == 0 {
        rest
    } else {
        Content::Plain(t[0], Box::new(plain(t.drop_first(), rest)))
    }
}

impl Json {
    /// The value as pieces of nested content, followed by `rest`.
    pub open spec fn pieces(self, rest: Content) -> Content
        decreases self,
    {
        match self {
            Json::Null => plain(null_text(), rest),
            Json::True => plain(true_text(), rest),
            Json::False => plain(false_text(), rest),
            Json::Number(n) => plain(n.text(), rest),
            Json::String(body) => Content::Text(body, Box::new(rest)),
            Json::EmptyArray(blank) => plain(
                seq![OPEN_BRACKET] + blank + seq![CLOSE_BRACKET],
                rest,
            ),
            Json::Array(elements) => Content::Plain(
                OPEN_BRACKET,
                Box::new(elements.pieces(Content::Plain(CLOSE_BRACKET, Box::new(rest)))),
            ),
            Json::EmptyObject(blank) => Content::Object(
                Box::new(plain(blank, Content::End)),
                Box::new(rest),
            ),
            Json::Object(members) => Content::Object(
                Box::new(members.pieces(Content::End)),
                Box::new(rest),
            ),
        }
    }

    /// What stands between the braces of an object, as nested content.
    pub open spec fn content(self) -> Content {
        match self {
            Json::EmptyObject(blank) => plain(blank, Content::End),
            Json::Object(members) => members.pieces(Content::End),
            _ => Content::End,
        }
    }
}

impl Element {
    pub open spec fn pieces(self, rest: Content) -> Content
        decreases self,
    {
        plain(self.before, self.value.pieces(plain(self.after, rest)))
    }
}

impl Elements {
    pub open spec fn pieces(self, rest: Content) -> Content
        decreases self,
    {
        match self {
            Elements::Last(e) => e.pieces(rest),
            Elements::More(e, more) => e.pieces(Content::Plain(COMMA, Box::new(more.pieces(rest)))),
        }
    }
}

impl Member {
    pub open spec fn pieces(self, rest: Content) -> Content
        decreases self,
    {
        plain(
            self.before,
            Content::Text(
                self.key,
                Box::new(
                    plain(self.between, Content::Plain(COLON, Box::new(self.element.pieces(rest)))),
                ),
            ),
        )
    }
}

impl Members {
    pub open spec fn pieces(self, rest: Content) -> Content
        decreases self,
    {
        match self {
            Members::Last(m) => m.pieces(rest),
            Members::More(m, more) => m.pieces(Content::Plain(COMMA, Box::new(more.pieces(rest)))),
        }
    }
}

/// Bytes that stand for themselves are well nested, one piece each.
proof fn lemma_plain(t: Seq<u8>, rest: Content)
    requires
        all_plain(t),
        well_nested(rest),
    ensures
        well_nested(plain(t, rest)),
        rendered(plain(t, rest)) == t + rendered(rest),
    decreases t.len(),
{
    if t.len() == 0 {
        assert(t + rendered(rest) == rendered(rest));
    } else {
        assert(is_plain(t[0]));
        assert forall|i: int| 0 <= i < t.drop_first().len() implies is_plain(
            #[trigger] t.drop_first()[i],
        ) by {
            assert(t.drop_first()[i] == t[i + 1]);
        }
        lemma_plain(t.drop_first(), rest);
        assert(seq![t[0]] + (t.drop_first() + rendered(rest)) == t + rendered(rest));
    }
}

/// JSON whitespace stands for itself inside an element and separates
/// elements between them.
pub proof fn lemma_blank_is_plain(t: Seq<u8>)
    requires
        is_json_blank(t),
    ensures
        all_plain(t),
        is_gap(t),
{
    assert forall|i: int| 0 <= i < t.len() implies is_plain(#[trigger] t[i]) by {
        assert(is_json_whitespace(t[i]));
    }
    assert forall|i: int| 0 <= i < t.len() implies is_separator(
        #[trigger] t[i],
    ) by {
        assert(is_json_whitespace(t[i]));
    }
}

/// Digits stand for themselves.
proof fn lemma_digits_are_plain(t: Seq<u8>)
    requires
        is_digits(t),
    ensures
        all_plain(t),
{
    assert forall|i: int| 0 <= i < t.len() implies is_plain(#[trigger] t[i]) by {
        assert(is_digit(t[i]));
    }
}

/// Two runs of bytes that stand for themselves make one.
proof fn lemma_plain_concat(a: Seq<u8>, b: Seq<u8>)
    requires
        all_plain(a),
        all_plain(b),
    ensures
        all_plain(a + b),
{
    assert forall|i: int| 0 <= i < (a + b).len() implies is_plain(#[trigger] (a + b)[i]) by {
        if i < a.len() {
            assert((a + b)[i] == a[i]);
        } else {
            assert((a + b)[i] == b[i - a.len()]);
        }
    }
}

/// Every byte of an exponent stands for itself.
proof fn lemma_exponent_is_plain(e: Exponent)
    requires
        e.valid(),
    ensures
        all_plain(e.text()),
{
    let sign = match e.sign {
        Some(sign) => seq![sign],
        None => Seq::empty(),
    };
    lemma_digits_are_plain(e.digits);
    lemma_plain_concat(seq![e.marker], sign);
    lemma_plain_concat(seq![e.marker] + sign, e.digits);
}

/// Every byte of a number stands for itself.
proof fn lemma_number_is_plain(n: Number)
    requires
        n.valid(),
    ensures
        all_plain(n.text()),
{
    let minus = if n.minus {
        seq![0x2Du8]
    } else {
        Seq::empty()
    };
    let fraction = match n.fraction {
        Some(fraction) => seq![0x2Eu8] + fraction,
        None => Seq::empty(),
    };
    let exponent = match n.exponent {
        Some(exponent) => exponent.text(),
        None => Seq::empty(),
    };
    lemma_digits_are_plain(n.whole);
    if let Some(digits) = n.fraction {
        lemma_digits_are_plain(digits);
        lemma_plain_concat(seq![0x2Eu8], digits);
    }
    if let Some(e) = n.exponent {
        lemma_exponent_is_plain(e);
    }
    lemma_plain_concat(minus, n.whole);
    lemma_plain_concat(minus + n.whole, fraction);
    lemma_plain_concat(minus + n.whole + fraction, exponent);
}

/// The body of a JSON string is the body of a string as the machine sees
/// one: no quote in it ends the string before its time.
pub proof fn lemma_json_string_body(body: Seq<u8>)
    requires
        is_json_string_body(body),
    ensures
        is_string_body(body),
    decreases body.len(),
{
    if body.len() == 0 {
    } else if body[0] == BACKSLASH {
        if body.len() >= 2 && is_escape_letter(body[1]) {
            lemma_json_string_body(body.skip(2));
        } else {
            lemma_json_string_body(body.skip(6));
            let b2 = body.skip(2);
            let b3 = body.skip(3);
            let b4 = body.skip(4);
            let b5 = body.skip(5);
            assert(b5[0] == body[5] && b5.drop_first() == body.skip(6));
            assert(is_string_body(b5));
            assert(b4[0] == body[4] && b4.drop_first() == b5);
            assert(is_string_body(b4));
            assert(b3[0] == body[3] && b3.drop_first() == b4);
            assert(is_string_body(b3));
            assert(b2[0] == body[2] && b2.drop_first() == b3);
            assert(is_string_body(b2));
        }
    } else {
        lemma_json_string_body(body.drop_first());
    }
}

/// A JSON value is correctly nested content, and its pieces render to its
/// own bytes.
pub proof fn lemma_json_is_well_nested(j: Json, rest: Content)
    requires
        j.valid(),
        well_nested(rest),
    ensures
        well_nested(j.pieces(rest)),
        rendered(j.pieces(rest)) == j.text() + rendered(rest),
    decreases j,
{
    match j {
        Json::Null => {
            lemma_plain(null_text(), rest);
        },
        Json::True => {
            lemma_plain(true_text(), rest);
        },
        Json::False => {
            lemma_plain(false_text(), rest);
        },
        Json::Number(n) => {
            lemma_number_is_plain(n);
            lemma_plain(n.text(), rest);
        },
        Json::String(body) => {
            lemma_json_string_body(body);
        },
        Json::EmptyArray(blank) => {
            lemma_blank_is_plain(blank);
            lemma_plain_concat(seq![OPEN_BRACKET], blank);
            lemma_plain_concat(seq![OPEN_BRACKET] + blank, seq![CLOSE_BRACKET]);
            lemma_plain(j.text(), rest);
        },
        Json::Array(elements) => {
            let closing = Content::Plain(CLOSE_BRACKET, Box::new(rest));
            assert(rendered(closing) == seq![CLOSE_BRACKET] + rendered(rest));
            lemma_elements_are_well_nested(*elements, closing);
            assert(seq![OPEN_BRACKET] + (elements.text() + (seq![CLOSE_BRACKET] + rendered(rest)))
                == j.text() + rendered(rest));
        },
        Json::EmptyObject(blank) => {
            lemma_blank_is_plain(blank);
            let inner = plain(blank, Content::End);
            lemma_plain(blank, Content::End);
            assert(blank + rendered(Content::End) == blank);
            assert(object_text(inner) == seq![OPEN_BRACE] + rendered(inner) + seq![CLOSE_BRACE]);
            assert(rendered(j.pieces(rest)) == object_text(inner) + rendered(rest));
        },
        Json::Object(members) => {
            let inner = members.pieces(Content::End);
            lemma_members_are_well_nested(*members, Content::End);
            assert(members.text() + rendered(Content::End) == members.text());
            assert(object_text(inner) == seq![OPEN_BRACE] + rendered(inner) + seq![CLOSE_BRACE]);
            assert(rendered(j.pieces(rest)) == object_text(inner) + rendered(rest));
        },
    }
}

/// The same of a value with the whitespace around it.
proof fn lemma_element_is_well_nested(e: Element, rest: Content)
    requires
        e.valid(),
        well_nested(rest),
    ensures
        well_nested(e.pieces(rest)),
        rendered(e.pieces(rest)) == e.text() + rendered(rest),
    decreases e,
{
    lemma_blank_is_plain(e.before);
    lemma_blank_is_plain(e.after);
    lemma_plain(e.after, rest);
    lemma_json_is_well_nested(e.value, plain(e.after, rest));
    lemma_plain(e.before, e.value.pieces(plain(e.after, rest)));
    assert(e.before + (e.value.text() + (e.after + rendered(rest))) == e.text() + rendered(rest));
}

/// The same of the elements of an array.
proof fn lemma_elements_are_well_nested(es: Elements, rest: Content)
    requires
        es.valid(),
        well_nested(rest),
    ensures
        well_nested(es.pieces(rest)),
        rendered(es.pieces(rest)) == es.text() + rendered(rest),
    decreases es,
{
    match es {
        Elements::Last(e) => {
            lemma_element_is_well_nested(e, rest);
        },
        Elements::More(e, more) => {
            lemma_elements_are_well_nested(*more, rest);
            let tail = Content::Plain(COMMA, Box::new(more.pieces(rest)));
            lemma_element_is_well_nested(e, tail);
            assert(e.text() + (seq![COMMA] + (more.text() + rendered(rest))) == es.text()
                + rendered(rest));
        },
    }
}

/// The same of a member of an object.
proof fn lemma_member_is_well_nested(m: Member, rest: Content)
    requires
        m.valid(),
        well_nested(rest),
    ensures
        well_nested(m.pieces(rest)),
        rendered(m.pieces(rest)) == m.text() + rendered(rest),
    decreases m,
{
    lemma_blank_is_plain(m.before);
    lemma_blank_is_plain(m.between);
    lemma_json_string_body(m.key);
    lemma_element_is_well_nested(m.element, rest);
    let value = Content::Plain(COLON, Box::new(m.element.pieces(rest)));
    lemma_plain(m.between, value);
    let key = Content::Text(m.key, Box::new(plain(m.between, value)));
    lemma_plain(m.before, key);
    assert(m.before + (string_literal(m.key) + (m.between + (seq![COLON] + (m.element.text()
        + rendered(rest))))) == m.text() + rendered(rest));
}

/// The same of the members of an object.
proof fn lemma_members_are_well_nested(ms: Members, rest: Content)
    requires
        ms.valid(),
        well_nested(rest),
    ensures
        well_nested(ms.pieces(rest)),
        rendered(ms.pieces(rest)) == ms.text() + rendered(rest),
    decreases ms,
{
    match ms {
        Members::Last(m) => {
            lemma_member_is_well_nested(m, rest);
        },
        Members::More(m, more) => {
            lemma_members_are_well_nested(*more, rest);
            let tail = Content::Plain(COMMA, Box::new(more.pieces(rest)));
            lemma_member_is_well_nested(m, tail);
            assert(m.text() + (seq![COMMA] + (more.text() + rendered(rest))) == ms.text()
                + rendered(rest));
        },
    }
}

/// A JSON object is a correctly nested object: its bytes are those of its
/// content between braces.
pub proof fn lemma_json_object_is_well_nested(j: Json)
    requires
        j.valid(),
        j.is_object(),
    ensures
        well_nested(j.content()),
        object_text(j.content()) == j.text(),
{
    lemma_json_is_well_nested(j, Content::End);
    assert(j.pieces(Content::End) == Content::Object(Box::new(j.content()), Box::new(Content::End)));
    assert(object_text(j.content()) + rendered(Content::End) == object_text(j.content()));
    assert(j.text() + rendered(Content::End) == j.text());
}

} // verus!
