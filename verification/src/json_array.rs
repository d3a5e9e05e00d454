//! JSON arrays of objects: the machine finds exactly their elements, however
//! the text is cut into chunks.

use vstd::prelude::*;
use crate::json::{is_json_blank, Elements, Json};
use crate::json_shape::{lemma_blank_is_plain, lemma_json_object_is_well_nested};
use crate::json_stream::{fresh, ReadFailurePolicy};
use crate::machine::{is_separator, CLOSE_BRACKET, COMMA, OPEN_BRACKET};
use crate::nesting::{is_gap, listing, object_text, well_nested, ArrayShape, Content};
use crate::session::{
    items_of, joined, lemma_array_pass_is_chunk_independent, no_chunk_is_empty, pulls,
};

verus! {

impl Elements {
    /// Whether every element is an object.
    pub open spec fn all_objects(self) -> bool
        decreases self,
    {
        match self {
            Elements::Last(e) => e.value.is_object(),
            Elements::More(e, more) => e.value.is_object() && more.all_objects(),
        }
    }

    /// The bytes of each element, without the whitespace around it.
    pub open spec fn value_texts(self) -> Seq<Seq<u8>>
        decreases self,
    {
        match self {
            Elements::Last(e) => seq![e.value.text()],
            Elements::More(e, more) => seq![e.value.text()] + more.value_texts(),
        }
    }

    /// What stands before each element, where `lead` stands before the
    /// first one's own whitespace.
    pub open spec fn gaps(self, lead: Seq<u8>) -> Seq<Seq<u8>>
        decreases self,
    {
        match self {
            Elements::Last(e) => seq![lead + e.before],
            Elements::More(e, more) => seq![lead + e.before] + more.gaps(e.after + seq![COMMA]),
        }
    }

    /// The content of each element.
    pub open spec fn contents(self) -> Seq<Content>
        decreases self,
    {
        match self {
            Elements::Last(e) => seq![e.value.content()],
            Elements::More(e, more) => seq![e.value.content()] + more.contents(),
        }
    }

    /// The whitespace after the last element.
    pub open spec fn closing(self) -> Seq<u8>
        decreases self,
    {
        match self {
            Elements::Last(e) => e.after,
            Elements::More(_, more) => more.closing(),
        }
    }
}

/// A JSON text that is one array: whitespace, the array, whitespace.
pub struct ArrayDocument {
    pub before: Seq<u8>,
    pub array: Json,
    pub after: Seq<u8>,
}

impl ArrayDocument {
    /// Whether the text is JSON and the value an array of objects.
    pub open spec fn valid(self) -> bool {
        &&& is_json_blank(self.before)
        &&& is_json_blank(self.after)
        &&& self.array.valid()
        &&& match self.array {
            Json::EmptyArray(_) => true,
            Json::Array(elements) => elements.all_objects(),
            _ => false,
        }
    }

    /// The bytes of the text.
    pub open spec fn text(self) -> Seq<u8> {
        self.before + self.array.text() + self.after
    }

    /// The bytes of each element of the array, without the whitespace around
    /// it.
    pub open spec fn element_texts(self) -> Seq<Seq<u8>> {
        match self.array {
            Json::Array(elements) => elements.value_texts(),
            _ => Seq::empty(),
        }
    }

    /// The text as brackets, gaps and nested objects.
    pub open spec fn shape(self) -> ArrayShape {
        match self.array {
            Json::Array(elements) => ArrayShape {
                lead: self.before,
                gaps: elements.gaps(Seq::empty()),
                objects: elements.contents(),
                closing: elements.closing(),
                trail: self.after,
            },
            Json::EmptyArray(blank) => ArrayShape {
                lead: self.before,
                gaps: Seq::empty(),
                objects: Seq::empty(),
                closing: blank,
                trail: self.after,
            },
            _ => ArrayShape {
                lead: self.before,
                gaps: Seq::empty(),
                objects: Seq::empty(),
                closing: Seq::empty(),
                trail: self.after,
            },
        }
    }
}

/// Two runs of separators make one.
proof fn lemma_gap_concat(a: Seq<u8>, b: Seq<u8>)
    requires
        is_gap(a),
        is_gap(b),
    ensures
        is_gap(a + b),
{
    assert forall|i: int| 0 <= i < (a + b).len() implies is_separator(
        #[trigger] (a + b)[i],
    ) by {
        if i < a.len() {
            assert((a + b)[i] == a[i]);
        } else {
            assert((a + b)[i] == b[i - a.len()]);
        }
    }
}

/// A listing begins with its first gap and its first object.
proof fn lemma_listing_cons(gap: Seq<u8>, object: Content, gaps: Seq<Seq<u8>>, objects: Seq<Content>)
    requires
        gaps.len() == objects.len(),
    ensures
        listing(seq![gap] + gaps, seq![object] + objects) == gap + object_text(object) + listing(
            gaps,
            objects,
        ),
    decreases objects.len(),
{
    let all_gaps = seq![gap] + gaps;
    let all_objects = seq![object] + objects;
    if objects.len() == 0 {
        assert(all_gaps.drop_last() == Seq::<Seq<u8>>::empty());
        assert(all_objects.drop_last() == Seq::<Content>::empty());
        assert(listing(all_gaps.drop_last(), all_objects.drop_last()) == Seq::<u8>::empty());
        assert(all_gaps.last() == gap);
        assert(all_objects.last() == object);
        assert(listing(gaps, objects) == Seq::<u8>::empty());
        assert(Seq::<u8>::empty() + gap + object_text(object) == gap + object_text(object)
            + Seq::<u8>::empty());
    } else {
        assert(all_gaps.drop_last() == seq![gap] + gaps.drop_last());
        assert(all_objects.drop_last() == seq![object] + objects.drop_last());
        assert(all_gaps.last() == gaps.last());
        assert(all_objects.last() == objects.last());
        lemma_listing_cons(gap, object, gaps.drop_last(), objects.drop_last());
        let front = listing(gaps.drop_last(), objects.drop_last());
        assert((gap + object_text(object) + front) + gaps.last() + object_text(objects.last())
            == gap + object_text(object) + (front + gaps.last() + object_text(objects.last())));
    }
}

/// The elements of a JSON array of objects, with what stands before them,
/// are a listing of correctly nested objects with gaps between them.
proof fn lemma_elements_shape(es: Elements, lead: Seq<u8>)
    requires
        es.valid(),
        es.all_objects(),
        is_gap(lead),
    ensures
        es.gaps(lead).len() == es.contents().len(),
        forall|i: int| 0 <= i < es.gaps(lead).len() ==> is_gap(#[trigger] es.gaps(lead)[i]),
        forall|i: int| 0 <= i < es.contents().len() ==> well_nested(#[trigger] es.contents()[i]),
        is_gap(es.closing()),
        listing(es.gaps(lead), es.contents()) + es.closing() == lead + es.text(),
        Seq::new(es.contents().len(), |i: int| object_text(es.contents()[i])) == es.value_texts(),
    decreases es,
{
    match es {
        Elements::Last(e) => {
            assert(e.valid());
            assert(is_json_blank(e.before) && e.value.valid() && is_json_blank(e.after));
            assert(e.text() == e.before + e.value.text() + e.after);
            lemma_blank_is_plain(e.before);
            lemma_blank_is_plain(e.after);
            lemma_gap_concat(lead, e.before);
            lemma_json_object_is_well_nested(e.value);
            lemma_listing_cons(
                lead + e.before,
                e.value.content(),
                Seq::empty(),
                Seq::empty(),
            );
            assert(listing(Seq::<Seq<u8>>::empty(), Seq::<Content>::empty()) == Seq::<u8>::empty());
            assert(seq![lead + e.before] + Seq::<Seq<u8>>::empty() == es.gaps(lead));
            assert(seq![e.value.content()] + Seq::<Content>::empty() == es.contents());
            assert((lead + e.before) + e.value.text() + Seq::<u8>::empty() + e.after == lead
                + es.text());
            assert(Seq::new(es.contents().len(), |i: int| object_text(es.contents()[i]))
                =~= es.value_texts());
        },
        Elements::More(e, more) => {
            assert(e.valid());
            assert(is_json_blank(e.before) && e.value.valid() && is_json_blank(e.after));
            assert(e.text() == e.before + e.value.text() + e.after);
            lemma_blank_is_plain(e.before);
            lemma_blank_is_plain(e.after);
            lemma_gap_concat(lead, e.before);
            let comma = seq![COMMA];
            assert(is_gap(comma));
            lemma_gap_concat(e.after, comma);
            lemma_json_object_is_well_nested(e.value);
            lemma_elements_shape(*more, e.after + comma);
            let gaps = more.gaps(e.after + comma);
            let objects = more.contents();
            lemma_listing_cons(lead + e.before, e.value.content(), gaps, objects);
            assert(((lead + e.before) + e.value.text() + listing(gaps, objects)) + more.closing()
                == (lead + e.before) + e.value.text() + (listing(gaps, objects) + more.closing()));
            assert((lead + e.before) + e.value.text() + ((e.after + comma) + more.text()) == lead
                + es.text());
            assert(Seq::new(es.contents().len(), |i: int| object_text(es.contents()[i]))
                =~= es.value_texts()) by {
                let texts = Seq::new(objects.len(), |i: int| object_text(objects[i]));
                assert(texts == more.value_texts());
                assert forall|i: int| 0 <= i < es.contents().len() implies object_text(
                    es.contents()[i],
                ) == #[trigger] es.value_texts()[i] by {
                    if i > 0 {
                        assert(es.contents()[i] == objects[i - 1]);
                        assert(es.value_texts()[i] == texts[i - 1]);
                    }
                }
            }
        },
    }
}

/// A JSON array of objects, with whitespace around it, is a well-formed array
/// as the machine needs it, with the same bytes and the same elements.
pub proof fn lemma_json_array_is_well_formed(doc: ArrayDocument)
    requires
        doc.valid(),
    ensures
        doc.shape().well_formed(),
        doc.shape().text() == doc.text(),
        doc.shape().element_texts() == doc.element_texts(),
{
    let shape = doc.shape();
    lemma_blank_is_plain(doc.before);
    lemma_blank_is_plain(doc.after);
    match doc.array {
        Json::Array(elements) => {
            let nothing = Seq::<u8>::empty();
            lemma_elements_shape(*elements, nothing);
            assert(nothing + elements.text() == elements.text());
            assert(doc.before + seq![OPEN_BRACKET] + listing(shape.gaps, shape.objects)
                + shape.closing + seq![CLOSE_BRACKET] + doc.after == doc.before + (seq![
                OPEN_BRACKET,
            ] + (listing(shape.gaps, shape.objects) + shape.closing) + seq![CLOSE_BRACKET])
                + doc.after);
        },
        Json::EmptyArray(blank) => {
            lemma_blank_is_plain(blank);
            assert(listing(shape.gaps, shape.objects) == Seq::<u8>::empty());
            assert(doc.before + seq![OPEN_BRACKET] + Seq::<u8>::empty() + blank + seq![
                CLOSE_BRACKET,
            ] + doc.after == doc.before + (seq![OPEN_BRACKET] + blank + seq![CLOSE_BRACKET])
                + doc.after);
            assert(shape.element_texts() =~= doc.element_texts());
        },
        _ => {},
    }
}

/// However the text of a JSON array of objects is cut into chunks, a pass
/// over it yields the parse of each element of the array, once and in the
/// array's order, and nothing else: as many results as the array has
/// elements.
pub proof fn lemma_json_array_pass_is_chunk_independent(
    doc: ArrayDocument,
    chunks: Seq<Seq<u8>>,
    policy: ReadFailurePolicy,
)
    requires
        doc.valid(),
        no_chunk_is_empty(chunks),
        joined(chunks) == doc.text(),
    ensures
        pulls(fresh(policy), chunks) == items_of(doc.element_texts()),
{
    lemma_json_array_is_well_formed(doc);
    lemma_array_pass_is_chunk_independent(doc.shape(), chunks, policy);
}

} // verus!
