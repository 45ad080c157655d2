//! Operation descriptions of a REST API and the rule for their tags.
//!
//! A tag groups operations in the API documentation. The tag rule accepts the
//! argument of a `.tag(..)` call only when it is a string literal or a constant
//! whose text is well-formed: one or more words in Title Case, separated by
//! single spaces, every word starting with an ASCII capital letter (for example
//! `Simple Resource Registry`). A tag passed through a variable is flagged
//! whatever its text, since its text is not fixed where the operation is
//! described.

use vstd::prelude::*;

verus! {

/// The HTTP method of an operation.
#[derive(Clone, Copy, Debug, PartialEq, Eq, Structural)]
pub enum HttpMethod {
    Get,
    Post,
    Put,
    Delete,
    Patch,
}

/// An operation of the API being described.
#[derive(Debug)]
pub struct OperationBuilder {
    pub method: HttpMethod,
    pub path: String,
    pub operation_id: Option<String>,
    pub tags: Vec<String>,
}

pub open spec fn is_upper(c: char) -> bool {
    65 <= c as int <= 90
}

/// Title Case words separated by single spaces: not empty, starts with a
/// capital, and every space is followed by a capital (so no space ends the tag
/// or follows another).
pub open spec fn tag_well_formed(t: Seq<char>) -> bool {
    &&& t.len() > 0
    &&& is_upper(t[0])
    &&& forall|i: int| 0 <= i < t.len() && #[trigger] t[i] == ' ' ==> i + 1 < t.len() && is_upper(t[i + 1])
}

/// Whether a tag is well-formed.
pub fn is_well_formed_tag(tag: &str) -> (r: bool)
    ensures
        r == tag_well_formed(tag@),
{
    let n = tag.unicode_len();
    if n == 0 {
        return false;
    }
    let first = tag.get_char(0) as u32;
    if !(65 <= first && first <= 90) {
        return false;
    }
    let mut i: usize = 0;
    while i < n
        invariant
            n == tag@.len(),
            i <= n,
            forall|j: int| 0 <= j < i && #[trigger] tag@[j] == ' ' ==> j + 1 < tag@.len() && is_upper(tag@[j + 1]),
        decreases n - i,
    {
        if tag.get_char(i) == ' ' {
            if i + 1 >= n {
                return false;
            }
            let next = tag.get_char(i + 1) as u32;
            if !(65 <= next && next <= 90) {
                return false;
            }
        }
        i = i + 1;
    }
    true
}

impl OperationBuilder {
    fn with_method(method: HttpMethod, path: &str) -> (r: OperationBuilder)
        ensures
            r.method == method,
            r.path@ == path@,
            r.operation_id is None,
            r.tags@.len() == 0,
    {
        OperationBuilder { method, path: String::from_str(path), operation_id: None, tags: Vec::new() }
    }

    /// A `GET` operation on `path`.
    pub fn get(path: &str) -> (r: OperationBuilder)
        ensures
            r.method == HttpMethod::Get,
            r.path@ == path@,
            r.operation_id is None,
            r.tags@.len() == 0,
    {
        Self::with_method(HttpMethod::Get, path)
    }

    /// A `POST` operation on `path`.
    pub fn post(path: &str) -> (r: OperationBuilder)
        ensures
            r.method == HttpMethod::Post,
            r.path@ == path@,
            r.operation_id is None,
            r.tags@.len() == 0,
    {
        Self::with_method(HttpMethod::Post, path)
    }

    /// A `PUT` operation on `path`.
    pub fn put(path: &str) -> (r: OperationBuilder)
        ensures
            r.method == HttpMethod::Put,
            r.path@ == path@,
            r.operation_id is None,
            r.tags@.len() == 0,
    {
        Self::with_method(HttpMethod::Put, path)
    }

    /// A `DELETE` operation on `path`.
    pub fn delete(path: &str) -> (r: OperationBuilder)
        ensures
            r.method == HttpMethod::Delete,
            r.path@ == path@,
            r.operation_id is None,
            r.tags@.len() == 0,
    {
        Self::with_method(HttpMethod::Delete, path)
    }

    /// A `PATCH` operation on `path`.
    pub fn patch(path: &str) -> (r: OperationBuilder)
        ensures
            r.method == HttpMethod::Patch,
            r.path@ == path@,
            r.operation_id is None,
            r.tags@.len() == 0,
    {
        Self::with_method(HttpMethod::Patch, path)
    }

    /// The same operation under the given id.
    pub fn operation_id(self, id: &str) -> (r: OperationBuilder)
        ensures
            r.method == self.method,
            r.path == self.path,
            r.operation_id matches Some(s) && s@ == id@,
            r.tags == self.tags,
    {
        OperationBuilder {
            method: self.method,
            path: self.path,
            operation_id: Some(String::from_str(id)),
            tags: self.tags,
        }
    }

    /// The same operation with one more tag.
    pub fn tag(self, tag: &str) -> (r: OperationBuilder)
        ensures
            r.method == self.method,
            r.path == self.path,
            r.operation_id == self.operation_id,
            r.tags@.len() == self.tags@.len() + 1,
            r.tags@.drop_last() == self.tags@,
            r.tags@.last()@ == tag@,
    {
        let mut tags = self.tags;
        tags.push(String::from_str(tag));
        OperationBuilder {
            method: self.method,
            path: self.path,
            operation_id: self.operation_id,
            tags,
        }
    }
}

/// The argument of a `.tag(..)` call, as the tag rule sees it: how the tag is
/// given, and its text.
#[derive(Debug)]
pub enum TagArg {
    /// A string literal.
    Literal(String),
    /// A named constant.
    Const(String),
    /// Any other expression, such as a local variable.
    Variable(String),
}

/// The text of a tag argument.
pub open spec fn tag_arg_text(a: TagArg) -> Seq<char> {
    match a {
        TagArg::Literal(s) => s@,
        TagArg::Const(s) => s@,
        TagArg::Variable(s) => s@,
    }
}

/// The tag rule: a literal or a constant with a well-formed text.
pub open spec fn tag_arg_accepted(a: TagArg) -> bool {
    match a {
        TagArg::Literal(s) => tag_well_formed(s@),
        TagArg::Const(s) => tag_well_formed(s@),
        TagArg::Variable(_) => false,
    }
}

impl TagArg {
    /// The tag's text.
    pub fn text(&self) -> (r: &str)
        ensures
            r@ == tag_arg_text(*self),
    {
        match self {
            TagArg::Literal(s) => s.as_str(),
            TagArg::Const(s) => s.as_str(),
            TagArg::Variable(s) => s.as_str(),
        }
    }

    /// Whether the tag rule accepts this argument.
    pub fn is_accepted(&self) -> (r: bool)
        ensures
            r == tag_arg_accepted(*self),
    {
        match self {
            TagArg::Literal(s) => is_well_formed_tag(s.as_str()),
            TagArg::Const(s) => is_well_formed_tag(s.as_str()),
            TagArg::Variable(_) => false,
        }
    }
}

/// A tag that is not Title Case.
pub const INVALID_TAG: &'static str = "simple resource registry";

/// Describes the operations of a resource registry, tagging each in a way that
/// the tag rule flags: lower-case words (a literal), mixed case (a literal), a
/// single lower-case word (a literal), an empty tag (a literal), a tag taken
/// from a variable rather than a literal or a constant, and a constant that is
/// not Title Case. The descriptions are dropped; only the `.tag(..)` calls
/// matter, to the rule.
pub fn invalid_tag_formats() {
    let router1 = OperationBuilder::post("/resources").operation_id("create_resource");
    let _ = router1.tag("simple resource registry");

    let router2 = OperationBuilder::get("/resources/{id}").operation_id("get_resource");
    let _ = router2.tag("Simple resource registry");

    let router3 = OperationBuilder::put("/resources/{id}").operation_id("update_resource");
    let _ = router3.tag("registry");

    let router4 = OperationBuilder::delete("/resources/{id}").operation_id("delete_resource");
    let _ = router4.tag("");

    let tag_name = "Dynamic Tag";
    let router5 = OperationBuilder::get("/resources").operation_id("list_resources");
    let _ = router5.tag(tag_name);

    let router6 = OperationBuilder::patch("/resources/{id}").operation_id("patch_resource");
    let _ = router6.tag(INVALID_TAG);
}

/// A tag is refused when any of its words does not start with a capital: when
/// some space, wherever it stands, is followed by anything but `A`..`Z`, or ends
/// the tag; and when the tag is empty or does not start with `A`..`Z`.
pub proof fn lemma_tag_refused(t: Seq<char>, i: int)
    requires
        t.len() == 0 || !(65 <= t[0] as int <= 90) || (0 <= i < t.len() && t[i] == ' ' && (i + 1
            == t.len() || !(65 <= t[i + 1] as int <= 90))),
    ensures
        !tag_well_formed(t),
{
}

/// A tag is accepted when it is not empty, starts with `A`..`Z`, and every
/// space in it is followed by `A`..`Z`.
pub proof fn lemma_tag_accepted(t: Seq<char>)
    requires
        t.len() > 0,
        65 <= t[0] as int <= 90,
        forall|i: int| 0 <= i < t.len() && t[i] == ' ' ==> i + 1 < t.len() && 65 <= t[i + 1] as int <= 90,
    ensures
        tag_well_formed(t),
{
    assert forall|i: int| 0 <= i < t.len() && #[trigger] t[i] == ' ' implies i + 1 < t.len()
        && is_upper(t[i + 1]) by {}
}

/// A tag given through a variable is refused whatever its text; a literal or a
/// constant is accepted exactly when its text is: the kind of argument never
/// changes the verdict on the text otherwise.
pub proof fn lemma_tag_arg_rule(a: TagArg)
    ensures
        a is Variable ==> !tag_arg_accepted(a),
        !(a is Variable) ==> (tag_arg_accepted(a) <==> tag_well_formed(tag_arg_text(a))),
{
}

} // verus!
