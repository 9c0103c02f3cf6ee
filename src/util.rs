//! Reading attributes off elements with uniform errors, and walking an
//! element's children in document order.
use vstd::prelude::*;
use crate::{result_view, Error, ErrorView};
use crate::number::{parse_i64, parse_unsigned, unsigned_of, i64_of};
use crate::xml::{attr, NodeView, XmlNode};

verus! {

/// The error for an attribute `name` that element `node` lacks.
pub open spec fn missing(name: Seq<char>, node: Seq<char>) -> ErrorView {
    ErrorView::Invalid("expected `"@ + name + "` attribute in `"@ + node + "` node"@)
}

/// The error for an attribute `name` whose value cannot be read.
pub open spec fn malformed(name: Seq<char>) -> ErrorView {
    ErrorView::Invalid("failed to parse `"@ + name + "`"@)
}

/// The value of the attribute `name`, which element `node` must have.
pub open spec fn required(n: NodeView, name: Seq<char>, node: Seq<char>) -> Result<Seq<char>, ErrorView> {
    match attr(n, name) {
        Some(v) => Ok(v),
        None => Err(missing(name, node)),
    }
}

/// The required attribute `name` read as a decimal unsigned integer no
/// greater than `max`.
pub open spec fn required_unsigned(n: NodeView, name: Seq<char>, node: Seq<char>, max: nat) -> Result<nat, ErrorView> {
    match required(n, name, node) {
        Err(e) => Err(e),
        Ok(v) => match unsigned_of(v, 10, max) {
            Some(x) => Ok(x),
            None => Err(malformed(name)),
        },
    }
}

/// The optional attribute `name` read as a signed 64-bit integer; a value
/// that cannot be read fails with `bad`.
pub open spec fn optional_i64(n: NodeView, name: Seq<char>, bad: Seq<char>) -> Result<Option<i64>, ErrorView> {
    match attr(n, name) {
        None => Ok(None),
        Some(v) => match i64_of(v) {
            Some(x) => Ok(Some(x as i64)),
            None => Err(ErrorView::Invalid(bad)),
        },
    }
}

/// Walks the children `kids` in order from `init`, stopping at the first error.
pub open spec fn fold_children<S>(kids: Seq<usize>, init: S, step: spec_fn(S, int) -> Result<S, ErrorView>) -> Result<S, ErrorView>
    decreases kids.len(),
{
    if kids.len() == 0 {
        Ok(init)
    } else {
        match fold_children(kids.drop_last(), init, step) {
            Ok(s) => step(s, kids.last() as int),
            Err(e) => Err(e),
        }
    }
}

pub proof fn lemma_fold_start<S>(kids: Seq<usize>, init: S, step: spec_fn(S, int) -> Result<S, ErrorView>)
    ensures
        fold_children(kids.subrange(0, 0), init, step) == Ok::<S, ErrorView>(init),
{
    assert(kids.subrange(0, 0).len() == 0);
}

pub proof fn lemma_fold_next<S>(kids: Seq<usize>, k: int, init: S, step: spec_fn(S, int) -> Result<S, ErrorView>)
    requires
        0 <= k < kids.len(),
    ensures
        fold_children(kids.subrange(0, k + 1), init, step) == match fold_children(kids.subrange(0, k), init, step) {
            Ok(s) => step(s, kids[k] as int),
            Err(e) => Err(e),
        },
{
    assert(kids.subrange(0, k + 1).drop_last() =~= kids.subrange(0, k));
}

pub proof fn lemma_fold_stop<S>(kids: Seq<usize>, k: int, init: S, step: spec_fn(S, int) -> Result<S, ErrorView>)
    requires
        0 <= k <= kids.len(),
        fold_children(kids.subrange(0, k), init, step) is Err,
    ensures
        fold_children(kids, init, step) == fold_children(kids.subrange(0, k), init, step),
    decreases kids.len() - k,
{
    if k < kids.len() {
        lemma_fold_next(kids, k, init, step);
        lemma_fold_stop(kids, k + 1, init, step);
    } else {
        assert(kids.subrange(0, k) =~= kids);
    }
}

pub proof fn lemma_fold_end<S>(kids: Seq<usize>, init: S, step: spec_fn(S, int) -> Result<S, ErrorView>)
    ensures
        fold_children(kids.subrange(0, kids.len() as int), init, step) == fold_children(kids, init, step),
{
    assert(kids.subrange(0, kids.len() as int) =~= kids);
}

fn missing_error(name: &str, node: &str) -> (r: Error)
    ensures
        r@ == missing(name@, node@),
{
    let mut m = "expected `".to_owned();
    m.append(name);
    m.append("` attribute in `");
    m.append(node);
    m.append("` node");
    Error::InvalidNmapOutput(m)
}

pub fn malformed_error(name: &str) -> (r: Error)
    ensures
        r@ == malformed(name@),
{
    let mut m = "failed to parse `".to_owned();
    m.append(name);
    m.append("`");
    Error::InvalidNmapOutput(m)
}

/// The attribute `name` of element `node`, or the error that names both.
pub fn required_attr<'a>(n: &'a XmlNode, name: &str, node: &str) -> (r: Result<&'a String, Error>)
    ensures
        match r {
            Ok(v) => required(n@, name@, node@) == Ok::<Seq<char>, ErrorView>(v@),
            Err(e) => required(n@, name@, node@) == Err::<Seq<char>, ErrorView>(e@),
        },
{
    match n.attribute(name) {
        Some(v) => Ok(v),
        None => Err(missing_error(name, node)),
    }
}

/// The required attribute `name` as a decimal unsigned integer no greater
/// than `max`.
pub fn required_unsigned_attr(n: &XmlNode, name: &str, node: &str, max: u64) -> (r: Result<u64, Error>)
    ensures
        match r {
            Ok(v) => required_unsigned(n@, name@, node@, max as nat) == Ok::<nat, ErrorView>(v as nat),
            Err(e) => required_unsigned(n@, name@, node@, max as nat) == Err::<nat, ErrorView>(e@),
        },
{
    let v = match required_attr(n, name, node) {
        Ok(v) => v,
        Err(e) => return Err(e),
    };
    match parse_unsigned(v.as_str(), 10, max) {
        Some(x) => Ok(x),
        None => Err(malformed_error(name)),
    }
}

/// The optional attribute `name` as a signed 64-bit integer.
pub fn optional_i64_attr(n: &XmlNode, name: &str, bad: &str) -> (r: Result<Option<i64>, Error>)
    ensures
        result_view(r) == optional_i64(n@, name@, bad@),
{
    match n.attribute(name) {
        None => Ok(None),
        Some(v) => match parse_i64(v.as_str()) {
            Some(x) => Ok(Some(x)),
            None => Err(Error::invalid(bad)),
        },
    }
}

} // verus!
