//! Request parameters as a value tree: an object of named members, each a
//! scalar or an array whose elements are scalars or blocks of named scalars.
//! This is as deep as the response builder looks.

use crate::text::{chars_equal, chars_of};
use vstd::prelude::*;
use vstd::string::*;

verus! {

/// A leaf of the tree.
#[derive(Debug, Clone)]
pub enum Scalar {
    Bool(bool),
    /// A number that is a non-negative integer of at most 64 bits.
    Number(u64),
    Text(String),
    /// Anything else: null, another number, or a value nested deeper than
    /// the builder looks.
    Other,
}

/// A named scalar inside a block.
#[derive(Debug, Clone)]
pub struct Field {
    pub name: String,
    pub value: Scalar,
}

/// An element of an array.
#[derive(Debug, Clone)]
pub enum Element {
    Value(Scalar),
    Block(Vec<Field>),
}

/// The value of a member.
#[derive(Debug, Clone)]
pub enum Param {
    Value(Scalar),
    Array(Vec<Element>),
    /// An object, which no rule of the builder reads.
    Other,
}

/// A named member of the parameters.
#[derive(Debug, Clone)]
pub struct Member {
    pub name: String,
    pub value: Param,
}

/// The parameters of a request.
#[derive(Debug, Clone)]
pub enum Params {
    Object(Vec<Member>),
    /// Parameters that are no object.
    Other,
}

/// A scalar as contracts see it.
pub enum ScalarView {
    Bool(bool),
    Number(u64),
    Text(Seq<char>),
    Other,
}

/// An array element as contracts see it.
pub enum ElementView {
    Value(ScalarView),
    Block(Seq<(Seq<char>, ScalarView)>),
}

/// A member's value as contracts see it.
pub enum ParamView {
    Value(ScalarView),
    Array(Seq<ElementView>),
    Other,
}

/// The parameters as contracts see them.
pub enum ParamsView {
    Object(Seq<(Seq<char>, ParamView)>),
    Other,
}

impl View for Scalar {
    type V = ScalarView;

    open spec fn view(&self) -> ScalarView {
        match self {
            Scalar::Bool(flag) => ScalarView::Bool(*flag),
            Scalar::Number(number) => ScalarView::Number(*number),
            Scalar::Text(text) => ScalarView::Text(text@),
            Scalar::Other => ScalarView::Other,
        }
    }
}

/// The fields of a block as contracts see them.
pub open spec fn fields_view(fields: Seq<Field>) -> Seq<(Seq<char>, ScalarView)> {
    Seq::new(fields.len(), |i: int| (fields[i].name@, fields[i].value@))
}

impl View for Element {
    type V = ElementView;

    open spec fn view(&self) -> ElementView {
        match self {
            Element::Value(value) => ElementView::Value(value@),
            Element::Block(fields) => ElementView::Block(fields_view(fields@)),
        }
    }
}

/// The elements of an array as contracts see them.
pub open spec fn elements_view(elements: Seq<Element>) -> Seq<ElementView> {
    Seq::new(elements.len(), |i: int| elements[i]@)
}

impl View for Param {
    type V = ParamView;

    open spec fn view(&self) -> ParamView {
        match self {
            Param::Value(value) => ParamView::Value(value@),
            Param::Array(elements) => ParamView::Array(elements_view(elements@)),
            Param::Other => ParamView::Other,
        }
    }
}

/// The members of an object as contracts see them.
pub open spec fn members_view(members: Seq<Member>) -> Seq<(Seq<char>, ParamView)> {
    Seq::new(members.len(), |i: int| (members[i].name@, members[i].value@))
}

impl View for Params {
    type V = ParamsView;

    open spec fn view(&self) -> ParamsView {
        match self {
            Params::Object(members) => ParamsView::Object(members_view(members@)),
            Params::Other => ParamsView::Other,
        }
    }
}

/// Whether `at` is the first entry of that name.
pub open spec fn is_first_named<V>(entries: Seq<(Seq<char>, V)>, key: Seq<char>, at: int) -> bool {
    0 <= at < entries.len() && entries[at].0 == key && forall|j: int|
        0 <= j < at ==> (#[trigger] entries[j]).0 != key
}

/// The value of the first entry of that name.
pub open spec fn named<V>(entries: Seq<(Seq<char>, V)>, key: Seq<char>) -> Option<V> {
    if exists|at: int| is_first_named(entries, key, at) {
        Some(entries[choose|at: int| is_first_named(entries, key, at)].1)
    } else {
        None
    }
}

/// The number that a scalar is, if it is one.
pub open spec fn scalar_number(value: ScalarView) -> Option<u64> {
    match value {
        ScalarView::Number(number) => Some(number),
        _ => None,
    }
}

/// A scalar as a flag: a boolean as it is, a number where it is not zero,
/// anything else false.
pub open spec fn scalar_flag(value: ScalarView) -> bool {
    match value {
        ScalarView::Bool(flag) => flag,
        ScalarView::Number(number) => number != 0,
        _ => false,
    }
}

/// The number that an array element is, if it is one.
pub open spec fn element_number(element: ElementView) -> Option<u64> {
    match element {
        ElementView::Value(value) => scalar_number(value),
        ElementView::Block(_) => None,
    }
}

/// An array element as a flag.
pub open spec fn element_flag(element: ElementView) -> bool {
    match element {
        ElementView::Value(value) => scalar_flag(value),
        ElementView::Block(_) => false,
    }
}

/// The number under `key` in a block; none where the element is no block.
pub open spec fn block_number(element: ElementView, key: Seq<char>) -> Option<u64> {
    match element {
        ElementView::Block(fields) => match named(fields, key) {
            Some(value) => scalar_number(value),
            None => None,
        },
        ElementView::Value(_) => None,
    }
}

/// The member under `key`; none where the parameters are no object.
pub open spec fn member(params: ParamsView, key: Seq<char>) -> Option<ParamView> {
    match params {
        ParamsView::Object(members) => named(members, key),
        ParamsView::Other => None,
    }
}

/// The number under `key` at the top of the parameters.
pub open spec fn top_number(params: ParamsView, key: Seq<char>) -> Option<u64> {
    match member(params, key) {
        Some(ParamView::Value(value)) => scalar_number(value),
        _ => None,
    }
}

/// The array under `key` at the top of the parameters.
pub open spec fn top_array(params: ParamsView, key: Seq<char>) -> Option<Seq<ElementView>> {
    match member(params, key) {
        Some(ParamView::Array(elements)) => Some(elements),
        _ => None,
    }
}

impl Scalar {
    /// The number that the scalar is, if it is one.
    pub fn as_u64(&self) -> (number: Option<u64>)
        ensures
            number == scalar_number(self@),
    {
        match self {
            Scalar::Number(number) => Some(*number),
            _ => None,
        }
    }

    /// The scalar as a flag.
    pub fn as_flag(&self) -> (flag: bool)
        ensures
            flag == scalar_flag(self@),
    {
        match self {
            Scalar::Bool(flag) => *flag,
            Scalar::Number(number) => *number != 0,
            _ => false,
        }
    }
}

/// Finds the first field of that name.
pub fn find_field<'a>(fields: &'a Vec<Field>, key: &[char]) -> (found: Option<&'a Scalar>)
    ensures
        match found {
            Some(value) => named(fields_view(fields@), key@) == Some(value@),
            None => named(fields_view(fields@), key@) is None,
        },
{
    let ghost entries = fields_view(fields@);
    let mut i: usize = 0;
    while i < fields.len()
        invariant
            i <= fields@.len(),
            entries == fields_view(fields@),
            forall|j: int| 0 <= j < i ==> (#[trigger] entries[j]).0 != key@,
        decreases fields@.len() - i,
    {
        let name = chars_of(fields[i].name.as_str());
        if chars_equal(name.as_slice(), key) {
            assert(is_first_named(entries, key@, i as int));
            return Some(&fields[i].value);
        }
        i += 1;
    }
    assert forall|at: int| !is_first_named(entries, key@, at) by {
        if 0 <= at < entries.len() {
            assert(entries[at].0 != key@);
        }
    }
    None
}

/// Finds the first member of that name.
pub fn find_member<'a>(members: &'a Vec<Member>, key: &[char]) -> (found: Option<&'a Param>)
    ensures
        match found {
            Some(value) => named(members_view(members@), key@) == Some(value@),
            None => named(members_view(members@), key@) is None,
        },
{
    let ghost entries = members_view(members@);
    let mut i: usize = 0;
    while i < members.len()
        invariant
            i <= members@.len(),
            entries == members_view(members@),
            forall|j: int| 0 <= j < i ==> (#[trigger] entries[j]).0 != key@,
        decreases members@.len() - i,
    {
        let name = chars_of(members[i].name.as_str());
        if chars_equal(name.as_slice(), key) {
            assert(is_first_named(entries, key@, i as int));
            return Some(&members[i].value);
        }
        i += 1;
    }
    assert forall|at: int| !is_first_named(entries, key@, at) by {
        if 0 <= at < entries.len() {
            assert(entries[at].0 != key@);
        }
    }
    None
}

impl Element {
    /// The number that the element is, if it is one.
    pub fn as_u64(&self) -> (number: Option<u64>)
        ensures
            number == element_number(self@),
    {
        match self {
            Element::Value(value) => value.as_u64(),
            Element::Block(_) => None,
        }
    }

    /// The element as a flag.
    pub fn as_flag(&self) -> (flag: bool)
        ensures
            flag == element_flag(self@),
    {
        match self {
            Element::Value(value) => value.as_flag(),
            Element::Block(_) => false,
        }
    }

    /// The number under `key`, where the element is a block that has one.
    pub fn number(&self, key: &[char]) -> (number: Option<u64>)
        ensures
            number == block_number(self@, key@),
    {
        match self {
            Element::Block(fields) => match find_field(fields, key) {
                Some(value) => value.as_u64(),
                None => None,
            },
            Element::Value(_) => None,
        }
    }
}

impl Params {
    /// The member under `key`.
    pub fn get(&self, key: &[char]) -> (found: Option<&Param>)
        ensures
            match found {
                Some(value) => member(self@, key@) == Some(value@),
                None => member(self@, key@) is None,
            },
    {
        match self {
            Params::Object(members) => find_member(members, key),
            Params::Other => None,
        }
    }

    /// The number under `key` at the top of the parameters.
    pub fn number(&self, key: &[char]) -> (number: Option<u64>)
        ensures
            number == top_number(self@, key@),
    {
        match self.get(key) {
            Some(Param::Value(value)) => value.as_u64(),
            _ => None,
        }
    }

    /// The array under `key` at the top of the parameters.
    pub fn array(&self, key: &[char]) -> (found: Option<&Vec<Element>>)
        ensures
            match found {
                Some(elements) => top_array(self@, key@) == Some(elements_view(elements@)),
                None => top_array(self@, key@) is None,
            },
    {
        match self.get(key) {
            Some(Param::Array(elements)) => Some(elements),
            _ => None,
        }
    }
}

} // verus!
