//! The attributes of an element: what is found under a name, and what is
//! missing where it is required.

use crate::import::dmx::{DmxDocument, DmxElement, DmxFault, DmxValue, ParseDMXError};
use vstd::prelude::*;

verus! {

/// `==` on `str`: whether two strings hold the same characters.
#[verifier::external_body]
pub(crate) fn text_equals(a: &str, b: &str) -> (equal: bool)
    ensures
        equal == (a@ == b@),
{
    a == b
}

/// The fault of an attribute that an element lacks.
pub open spec fn missing_fault(element: DmxElement, name: Seq<char>, kind: Seq<char>) -> DmxFault {
    DmxFault::MissingRequiredAttribute(name, kind, element.id)
}

/// The error for an attribute that an element lacks.
pub(crate) fn missing(element: &DmxElement, name: &str, kind: &str) -> (error: ParseDMXError)
    ensures
        error@ == missing_fault(*element, name@, kind@),
{
    ParseDMXError::MissingRequiredAttribute(name.to_owned(), kind.to_owned(), element.id)
}

/// The value that an element has under a name.
pub open spec fn value_of(element: DmxElement, name: Seq<char>) -> Option<DmxValue> {
    if element.attributes.names().contains(name) {
        Some(element.attributes.values()[element.attributes.names().index_of(name)])
    } else {
        None
    }
}

/// The element that an attribute refers to, where the element has such an
/// attribute and it refers to an element of the document.
pub open spec fn element_of(document: DmxDocument, element: DmxElement, name: Seq<char>) -> Option<
    usize,
> {
    match value_of(element, name) {
        Some(DmxValue::Element(Some(index))) => if index < document.elements@.len() {
            Some(index)
        } else {
            None
        },
        _ => None,
    }
}

/// The elements of an array attribute.
pub open spec fn elements_of(element: DmxElement, name: Seq<char>) -> Option<Seq<Option<usize>>> {
    match value_of(element, name) {
        Some(DmxValue::ElementArray(targets)) => Some(targets@),
        _ => None,
    }
}

/// The integers of an array attribute.
pub open spec fn integers_of(element: DmxElement, name: Seq<char>) -> Option<Seq<i32>> {
    match value_of(element, name) {
        Some(DmxValue::IntegerArray(values)) => Some(values@),
        _ => None,
    }
}

/// The integer of an attribute.
pub open spec fn integer_of(element: DmxElement, name: Seq<char>) -> Option<i32> {
    match value_of(element, name) {
        Some(DmxValue::Integer(value)) => Some(value),
        _ => None,
    }
}

/// The text of an attribute.
pub open spec fn text_of(element: DmxElement, name: Seq<char>) -> Option<Seq<char>> {
    match value_of(element, name) {
        Some(DmxValue::Text(value)) => Some(value@),
        _ => None,
    }
}

/// The value of an attribute, if the element has it.
pub fn find_value<'a>(element: &'a DmxElement, name: &str) -> (value: Option<&'a DmxValue>)
    ensures
        match value {
            Some(found) => value_of(*element, name@) == Some(*found),
            None => value_of(*element, name@) is None,
        },
{
    match element.attributes.get_index_of(name) {
        Some(index) => {
            proof {
                let chosen = element.attributes.names().index_of(name@);
                assert(element.attributes.names()[chosen] == name@);
            }
            Some(element.attributes.value_at(index))
        },
        None => None,
    }
}

/// The element that an attribute refers to, if the element has such an
/// attribute and it refers to an element of the document.
pub(crate) fn optional_element(document: &DmxDocument, element: &DmxElement, name: &str) -> (target: Option<
    usize,
>)
    ensures
        target == element_of(*document, *element, name@),
        target matches Some(index) ==> index < document.elements@.len(),
{
    match find_value(element, name) {
        Some(DmxValue::Element(Some(index))) => {
            if *index < document.elements.len() {
                Some(*index)
            } else {
                None
            }
        },
        _ => None,
    }
}

/// The element that a required attribute refers to.
pub(crate) fn require_element(document: &DmxDocument, element: &DmxElement, name: &str) -> (target: Result<
    usize,
    ParseDMXError,
>)
    ensures
        match target {
            Ok(index) => element_of(*document, *element, name@) == Some(index) && index
                < document.elements@.len(),
            Err(error) => element_of(*document, *element, name@) is None && error@
                == missing_fault(*element, name@, "Element"@),
        },
{
    match optional_element(document, element, name) {
        Some(index) => Ok(index),
        None => Err(missing(element, name, "Element")),
    }
}

/// The elements of an array attribute, if the element has it.
pub(crate) fn optional_elements<'a>(element: &'a DmxElement, name: &str) -> (targets: Option<
    &'a Vec<Option<usize>>,
>)
    ensures
        match targets {
            Some(found) => elements_of(*element, name@) == Some(found@),
            None => elements_of(*element, name@) is None,
        },
{
    match find_value(element, name) {
        Some(DmxValue::ElementArray(targets)) => Some(targets),
        _ => None,
    }
}

/// The elements of a required array attribute.
pub(crate) fn require_elements<'a>(element: &'a DmxElement, name: &str) -> (targets: Result<
    &'a Vec<Option<usize>>,
    ParseDMXError,
>)
    ensures
        match targets {
            Ok(found) => elements_of(*element, name@) == Some(found@),
            Err(error) => elements_of(*element, name@) is None && error@ == missing_fault(
                *element,
                name@,
                "ElementArray"@,
            ),
        },
{
    match optional_elements(element, name) {
        Some(targets) => Ok(targets),
        None => Err(missing(element, name, "ElementArray")),
    }
}

/// The integers of a required array attribute.
pub(crate) fn require_integers<'a>(element: &'a DmxElement, name: &str) -> (values: Result<
    &'a Vec<i32>,
    ParseDMXError,
>)
    ensures
        match values {
            Ok(found) => integers_of(*element, name@) == Some(found@),
            Err(error) => integers_of(*element, name@) is None && error@ == missing_fault(
                *element,
                name@,
                "IntegerArray"@,
            ),
        },
{
    match find_value(element, name) {
        Some(DmxValue::IntegerArray(values)) => Ok(values),
        _ => Err(missing(element, name, "IntegerArray")),
    }
}

/// The integer of a required attribute.
pub(crate) fn require_integer(element: &DmxElement, name: &str) -> (value: Result<i32, ParseDMXError>)
    ensures
        match value {
            Ok(found) => integer_of(*element, name@) == Some(found),
            Err(error) => integer_of(*element, name@) is None && error@ == missing_fault(
                *element,
                name@,
                "Integer"@,
            ),
        },
{
    match find_value(element, name) {
        Some(DmxValue::Integer(value)) => Ok(*value),
        _ => Err(missing(element, name, "Integer")),
    }
}

/// The text of a required attribute.
pub(crate) fn require_text<'a>(element: &'a DmxElement, name: &str) -> (value: Result<
    &'a String,
    ParseDMXError,
>)
    ensures
        match value {
            Ok(found) => text_of(*element, name@) == Some(found@),
            Err(error) => text_of(*element, name@) is None && error@ == missing_fault(
                *element,
                name@,
                "String"@,
            ),
        },
{
    match find_value(element, name) {
        Some(DmxValue::Text(value)) => Ok(value),
        _ => Err(missing(element, name, "String")),
    }
}

/// What kind of numbers an attribute holds.
#[derive(Clone, Copy, Debug, PartialEq, Eq, Structural)]
pub enum NumberKind {
    Vector3,
    Quaternion,
    FloatArray,
    Vector2Array,
    Vector3Array,
    QuaternionArray,
}

/// The kind of numbers that a value holds and how many of them: one for a
/// single vector or quaternion.
pub open spec fn numbers_in(value: DmxValue) -> Option<(NumberKind, usize)> {
    match value {
        DmxValue::Vector3 => Some((NumberKind::Vector3, 1usize)),
        DmxValue::Quaternion => Some((NumberKind::Quaternion, 1usize)),
        DmxValue::FloatArray(count) => Some((NumberKind::FloatArray, count)),
        DmxValue::Vector2Array(count) => Some((NumberKind::Vector2Array, count)),
        DmxValue::Vector3Array(count) => Some((NumberKind::Vector3Array, count)),
        DmxValue::QuaternionArray(count) => Some((NumberKind::QuaternionArray, count)),
        _ => None,
    }
}

/// How many numbers of a kind an attribute holds, where the element has
/// such an attribute.
pub open spec fn numbers_of(element: DmxElement, name: Seq<char>, kind: NumberKind) -> Option<usize> {
    match value_of(element, name) {
        Some(value) => match numbers_in(value) {
            Some((found, count)) => if found == kind {
                Some(count)
            } else {
                None
            },
            None => None,
        },
        None => None,
    }
}

/// The name of a kind of numbers.
pub open spec fn kind_name(kind: NumberKind) -> Seq<char> {
    match kind {
        NumberKind::Vector3 => "Vector3"@,
        NumberKind::Quaternion => "Quaternion"@,
        NumberKind::FloatArray => "FloatArray"@,
        NumberKind::Vector2Array => "Vector2Array"@,
        NumberKind::Vector3Array => "Vector3Array"@,
        NumberKind::QuaternionArray => "QuaternionArray"@,
    }
}

/// How many numbers of a kind an attribute holds, if the element has such
/// an attribute; one for a single vector or quaternion.
fn optional_numbers(element: &DmxElement, name: &str, kind: NumberKind) -> (count: Option<usize>)
    ensures
        count == numbers_of(*element, name@, kind),
{
    match find_value(element, name) {
        Some(DmxValue::Vector3) => if kind == NumberKind::Vector3 {
            Some(1)
        } else {
            None
        },
        Some(DmxValue::Quaternion) => if kind == NumberKind::Quaternion {
            Some(1)
        } else {
            None
        },
        Some(DmxValue::FloatArray(count)) => if kind == NumberKind::FloatArray {
            Some(*count)
        } else {
            None
        },
        Some(DmxValue::Vector2Array(count)) => if kind == NumberKind::Vector2Array {
            Some(*count)
        } else {
            None
        },
        Some(DmxValue::Vector3Array(count)) => if kind == NumberKind::Vector3Array {
            Some(*count)
        } else {
            None
        },
        Some(DmxValue::QuaternionArray(count)) => if kind == NumberKind::QuaternionArray {
            Some(*count)
        } else {
            None
        },
        _ => None,
    }
}

/// How many numbers of a kind a required attribute holds.
pub(crate) fn require_numbers(element: &DmxElement, name: &str, kind: NumberKind) -> (count: Result<
    usize,
    ParseDMXError,
>)
    ensures
        match count {
            Ok(found) => numbers_of(*element, name@, kind) == Some(found),
            Err(error) => numbers_of(*element, name@, kind) is None && error@ == missing_fault(
                *element,
                name@,
                kind_name(kind),
            ),
        },
{
    match optional_numbers(element, name, kind) {
        Some(count) => Ok(count),
        None => Err(
            missing(
                element,
                name,
                match kind {
                    NumberKind::Vector3 => "Vector3",
                    NumberKind::Quaternion => "Quaternion",
                    NumberKind::FloatArray => "FloatArray",
                    NumberKind::Vector2Array => "Vector2Array",
                    NumberKind::Vector3Array => "Vector3Array",
                    NumberKind::QuaternionArray => "QuaternionArray",
                },
            ),
        ),
    }
}

/// The element with the position and the orientation of a node, or what it
/// lacks.
pub open spec fn transform_of(document: DmxDocument, element: DmxElement) -> Result<usize, DmxFault> {
    match element_of(document, element, "transform"@) {
        None => Err(missing_fault(element, "transform"@, "Element"@)),
        Some(transform) => {
            let holder = document.elements@[transform as int];
            if numbers_of(holder, "position"@, NumberKind::Vector3) is None {
                Err(missing_fault(holder, "position"@, "Vector3"@))
            } else if numbers_of(holder, "orientation"@, NumberKind::Quaternion) is None {
                Err(missing_fault(holder, "orientation"@, "Quaternion"@))
            } else {
                Ok(transform)
            }
        },
    }
}

/// The element with the position and the orientation of a node.
pub(crate) fn require_transform(document: &DmxDocument, element: &DmxElement) -> (transform: Result<
    usize,
    ParseDMXError,
>)
    ensures
        match transform {
            Ok(index) => transform_of(*document, *element) == Ok::<usize, DmxFault>(index)
                && index < document.elements@.len(),
            Err(error) => transform_of(*document, *element) == Err::<usize, DmxFault>(error@),
        },
{
    let transform = require_element(document, element, "transform")?;
    let _ = require_numbers(&document.elements[transform], "position", NumberKind::Vector3)?;
    let _ = require_numbers(&document.elements[transform], "orientation", NumberKind::Quaternion)?;
    Ok(transform)
}

/// Flags for the elements of a document, none of them set.
pub(crate) fn no_element_seen(document: &DmxDocument) -> (seen: Vec<bool>)
    ensures
        seen@.len() == document.elements@.len(),
        forall|i: int| 0 <= i < seen@.len() ==> !(#[trigger] seen@[i]),
{
    let mut seen: Vec<bool> = Vec::new();
    let mut i: usize = 0;
    while i < document.elements.len()
        invariant
            i <= document.elements@.len(),
            seen@.len() == i,
            forall|k: int| 0 <= k < i ==> !(#[trigger] seen@[k]),
        decreases document.elements@.len() - i,
    {
        seen.push(false);
        i += 1;
    }
    seen
}

/// The joints below a joint.
pub open spec fn children_of(element: DmxElement) -> Seq<Option<usize>> {
    match elements_of(element, "children"@) {
        Some(children) => children,
        None => Seq::empty(),
    }
}

} // verus!
