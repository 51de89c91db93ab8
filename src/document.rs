//! A document as the rewrite pass sees it, and the pass itself.
use vstd::prelude::*;
use crate::decode::{cfemail_decoded, parse_cfemail};

verus! {

/// A named attribute of an element.
pub struct Attribute {
    pub name: String,
    pub value: String,
}

/// An element of a document: its class names, its attributes, in the order
/// they were written, and its text.
pub struct Element {
    pub classes: Vec<String>,
    pub attributes: Vec<Attribute>,
    pub text: String,
}

/// A document, as the list of its elements in document order.
pub struct Document {
    pub elements: Vec<Element>,
}

/// The class that marks an element holding a hidden email address.
pub open spec fn cfemail_class() -> Seq<char> {
    "__cf_email__"@
}

/// The attribute that holds the encoded address.
pub open spec fn cfemail_attribute() -> Seq<char> {
    "data-cfemail"@
}

/// Whether one of the element's class names is `class`.
pub open spec fn has_class_spec(e: Element, class: Seq<char>) -> bool {
    exists|i: int| 0 <= i < e.classes@.len() && (#[trigger] e.classes@[i])@ == class
}

/// The value of the first attribute named `name` at or after index `i`.
pub open spec fn attribute_from(attrs: Seq<Attribute>, name: Seq<char>, i: int) -> Option<
    Seq<char>,
>
    decreases attrs.len() - i,
{
    if i < 0 || i >= attrs.len() {
        None
    } else if attrs[i].name@ == name {
        Some(attrs[i].value@)
    } else {
        attribute_from(attrs, name, i + 1)
    }
}

/// The value of the element's first attribute named `name`, if it has one.
pub open spec fn attr_spec(e: Element, name: Seq<char>) -> Option<Seq<char>> {
    attribute_from(e.attributes@, name, 0)
}

/// The encoded address of an element: its `data-cfemail` attribute, or
/// nothing where it has none.
pub open spec fn cfemail_payload(e: Element) -> Seq<char> {
    match attr_spec(e, cfemail_attribute()) {
        Some(v) => v,
        None => Seq::empty(),
    }
}

/// `after` is `before` rewritten: a marked element keeps its classes and
/// attributes and gets its decoded address as text; any other is unchanged.
pub open spec fn element_rewritten(before: Element, after: Element) -> bool {
    if has_class_spec(before, cfemail_class()) {
        &&& after.classes == before.classes
        &&& after.attributes == before.attributes
        &&& after.text@ == cfemail_decoded(cfemail_payload(before))
    } else {
        after == before
    }
}

/// `after` holds the elements of `before`, each rewritten.
pub open spec fn document_rewritten(before: Seq<Element>, after: Seq<Element>) -> bool {
    &&& after.len() == before.len()
    &&& forall|i: int| 0 <= i < before.len() ==> element_rewritten(before[i], #[trigger] after[i])
}

impl Element {
    /// Whether one of this element's class names is `class`.
    pub fn has_class(&self, class: &String) -> (r: bool)
        ensures
            r == has_class_spec(*self, class@),
    {
        let mut i: usize = 0;
        while i < self.classes.len()
            invariant
                i <= self.classes@.len(),
                forall|j: int| 0 <= j < i ==> (#[trigger] self.classes@[j])@ != class@,
            decreases self.classes@.len() - i,
        {
            if self.classes[i] == *class {
                return true;
            }
            i = i + 1;
        }
        false
    }

    /// The value of this element's first attribute named `name`.
    pub fn attr(&self, name: &String) -> (r: Option<&str>)
        ensures
            r matches Some(v) ==> attr_spec(*self, name@) == Some(v@),
            r is None ==> attr_spec(*self, name@) is None,
    {
        let mut i: usize = 0;
        while i < self.attributes.len()
            invariant
                i <= self.attributes@.len(),
                attr_spec(*self, name@) == attribute_from(self.attributes@, name@, i as int),
            decreases self.attributes@.len() - i,
        {
            if self.attributes[i].name == *name {
                return Some(self.attributes[i].value.as_str());
            }
            i = i + 1;
        }
        None
    }
}

/// Replaces the text of every element marked with the email-protection class
/// by the address decoded from its `data-cfemail` attribute (an element
/// without one is decoded from the empty string). Other elements, and the
/// classes and attributes of all elements, are left as they were.
pub fn decode_cfemail(html: &mut Document)
    ensures
        document_rewritten(old(html).elements@, final(html).elements@),
{
    let class = String::from_str("__cf_email__");
    let name = String::from_str("data-cfemail");
    let ghost before = html.elements@;
    let mut i: usize = 0;
    while i < html.elements.len()
        invariant
            class@ == cfemail_class(),
            name@ == cfemail_attribute(),
            i <= html.elements@.len(),
            html.elements@.len() == before.len(),
            forall|j: int| 0 <= j < i ==> element_rewritten(before[j], #[trigger] html.elements@[j]),
            forall|j: int| i <= j < before.len() ==> #[trigger] html.elements@[j] == before[j],
        decreases before.len() - i,
    {
        if html.elements[i].has_class(&class) {
            let email = match html.elements[i].attr(&name) {
                Some(data) => parse_cfemail(data),
                None => {
                    proof {
                        reveal_strlit("");
                    }
                    parse_cfemail("")
                },
            };
            html.elements[i].text = email;
        }
        i = i + 1;
    }
}

/// A document in which no element carries the email-protection class comes
/// out of the rewrite unchanged.
pub proof fn lemma_unmarked_document_unchanged(before: Seq<Element>, after: Seq<Element>)
    requires
        document_rewritten(before, after),
        forall|i: int| 0 <= i < before.len() ==> !has_class_spec(#[trigger] before[i], cfemail_class()),
    ensures
        after == before,
{
    assert forall|i: int| 0 <= i < before.len() implies after[i] == before[i] by {
        assert(element_rewritten(before[i], after[i]));
    }
    assert(after =~= before);
}

} // verus!
