use vstd::prelude::*;

use crate::error::DataError;
use crate::mwo_types::Decimal;
use crate::text::decimal_i64_spec;
use crate::text::i32_spec;
use crate::text::parse_decimal;
use crate::text::parse_i32;
use crate::text::parse_u8;
use crate::text::u8_spec;
use crate::xml_doc::attribute;
use crate::xml_doc::NodeView;
use crate::xml_doc::XmlDocument;

verus! {

/// What is read at each of the places `indices`, in order: `f` tells of a
/// place that it is malformed (`None`), to be left out (`Some(None)`) or what
/// it holds. One malformed place spoils the whole.
pub open spec fn collect<T>(indices: Seq<int>, f: spec_fn(int) -> Option<Option<T>>) -> Option<
    Seq<T>,
>
    decreases indices.len(),
{
    if indices.len() == 0 {
        Some(Seq::empty())
    } else {
        match collect(indices.drop_last(), f) {
            None => None,
            Some(earlier) => match f(indices.last()) {
                None => None,
                Some(None) => Some(earlier),
                Some(Some(item)) => Some(earlier.push(item)),
            },
        }
    }
}

/// What is malformed among the first places is malformed as a whole.
pub proof fn lemma_collect_fault<T>(
    indices: Seq<int>,
    f: spec_fn(int) -> Option<Option<T>>,
    n: int,
)
    requires
        0 <= n <= indices.len(),
        collect(indices.subrange(0, n), f) is None,
    ensures
        collect(indices, f) is None,
    decreases indices.len(),
{
    if n == indices.len() {
        assert(indices.subrange(0, n) == indices);
    } else {
        assert(indices.drop_last().subrange(0, n) == indices.subrange(0, n));
        lemma_collect_fault(indices.drop_last(), f, n);
    }
}

/// The whole number that the attribute `name` of `node` writes.
pub open spec fn i32_attribute(node: NodeView, name: Seq<char>) -> Option<i32> {
    match attribute(node, name) {
        Some(text) => i32_spec(text),
        None => None,
    }
}

/// The small number that the attribute `name` of `node` writes.
pub open spec fn u8_attribute(node: NodeView, name: Seq<char>) -> Option<u8> {
    match attribute(node, name) {
        Some(text) => u8_spec(text),
        None => None,
    }
}

/// The decimal number that the attribute `name` of `node` writes, in
/// millionths.
pub open spec fn decimal_attribute(node: NodeView, name: Seq<char>) -> Option<i64> {
    match attribute(node, name) {
        Some(text) => decimal_i64_spec(text),
        None => None,
    }
}

/// The one place that `found` holds, if it holds one and no more.
pub open spec fn only(found: Seq<int>) -> Option<int> {
    if found.len() == 1 {
        Some(found[0])
    } else {
        None
    }
}

impl XmlDocument {
    /// The attribute `name` of node `i`, which must have it.
    pub fn required(&self, i: usize, name: &str) -> (r: Result<&str, DataError>)
        requires
            i < self.nodes@.len(),
        ensures
            match r {
                Ok(text) => attribute(self@[i as int], name@) == Some(text@),
                Err(e) => e == DataError::MalformedDocument && attribute(self@[i as int], name@)
                    is None,
            },
    {
        match self.attribute(i, name) {
            Some(text) => Ok(text),
            None => Err(DataError::MalformedDocument),
        }
    }

    /// The whole number that the attribute `name` of node `i` writes.
    pub fn required_i32(&self, i: usize, name: &str) -> (r: Result<i32, DataError>)
        requires
            i < self.nodes@.len(),
        ensures
            match r {
                Ok(value) => i32_attribute(self@[i as int], name@) == Some(value),
                Err(e) => e == DataError::MalformedDocument && i32_attribute(
                    self@[i as int],
                    name@,
                ) is None,
            },
    {
        let text = self.required(i, name)?;
        match parse_i32(text) {
            Some(value) => Ok(value),
            None => Err(DataError::MalformedDocument),
        }
    }

    /// The small number that the attribute `name` of node `i` writes.
    pub fn required_u8(&self, i: usize, name: &str) -> (r: Result<u8, DataError>)
        requires
            i < self.nodes@.len(),
        ensures
            match r {
                Ok(value) => u8_attribute(self@[i as int], name@) == Some(value),
                Err(e) => e == DataError::MalformedDocument && u8_attribute(self@[i as int], name@)
                    is None,
            },
    {
        let text = self.required(i, name)?;
        match parse_u8(text) {
            Some(value) => Ok(value),
            None => Err(DataError::MalformedDocument),
        }
    }

    /// The decimal number that the attribute `name` of node `i` writes.
    pub fn required_decimal(&self, i: usize, name: &str) -> (r: Result<Decimal, DataError>)
        requires
            i < self.nodes@.len(),
        ensures
            match r {
                Ok(value) => decimal_attribute(self@[i as int], name@) == Some(value.micros),
                Err(e) => e == DataError::MalformedDocument && decimal_attribute(
                    self@[i as int],
                    name@,
                ) is None,
            },
    {
        let text = self.required(i, name)?;
        match parse_decimal(text) {
            Some(value) => Ok(value),
            None => Err(DataError::MalformedDocument),
        }
    }
}

/// The one place that `found` holds.
pub fn only_one(found: &Vec<usize>) -> (r: Result<usize, DataError>)
    ensures
        match r {
            Ok(i) => crate::xml_doc::places(found@).len() == 1 && crate::xml_doc::places(
                found@,
            )[0] == i && i == found@[0],
            Err(e) => e == DataError::MalformedDocument && found@.len() != 1,
        },
{
    if found.len() == 1 {
        Ok(found[0])
    } else {
        Err(DataError::MalformedDocument)
    }
}

} // verus!
