//! The models that can be requested.

use crate::text;
use std::str::FromStr;
use vstd::prelude::*;

verus! {

/// A model usable in a chat completion request.
///
/// The named variants are family aliases; [`Model::Pinned`] carries an explicit
/// id, typically an exact dated snapshot, verbatim.
#[derive(Debug, PartialEq, Eq, Hash)]
#[non_exhaustive]
pub enum Model {
    /// `deepseek-v4-flash` — fast and inexpensive.
    V4Flash,
    /// `deepseek-v4-pro` — stronger and pricier.
    V4Pro,
    /// An explicit, caller-supplied model id. Construct it via [`Model::pinned`].
    Pinned(String),
}

impl View for Model {
    type V = Seq<char>;

    /// The wire identifier.
    open spec fn view(&self) -> Seq<char> {
        match self {
            Model::V4Flash => "deepseek-v4-flash"@,
            Model::V4Pro => "deepseek-v4-pro"@,
            Model::Pinned(id) => id@,
        }
    }
}

impl Clone for Model {
    fn clone(&self) -> (copy: Self)
        ensures
            copy == *self,
    {
        match self {
            Model::V4Flash => Model::V4Flash,
            Model::V4Pro => Model::V4Pro,
            Model::Pinned(id) => Model::Pinned(id.clone()),
        }
    }
}

impl Model {
    /// Whether a family id is held by its named variant.
    pub open spec fn normalized(self) -> bool {
        self matches Model::Pinned(id) ==> id@ != "deepseek-v4-flash"@ && id@
            != "deepseek-v4-pro"@
    }

    /// The wire identifier sent in the request's `model` field.
    pub fn as_str(&self) -> (id: &str)
        ensures
            id@ == self@,
    {
        match self {
            Model::V4Flash => "deepseek-v4-flash",
            Model::V4Pro => "deepseek-v4-pro",
            Model::Pinned(id) => id.as_str(),
        }
    }

    /// The wire identifier, as a string of its own.
    pub fn to_string(&self) -> (id: String)
        ensures
            id@ == self@,
    {
        self.as_str().to_owned()
    }

    /// Builds a [`Model`] from an explicit id, collapsing a known family id back
    /// to its named variant.
    pub fn pinned(id: &str) -> (model: Self)
        ensures
            model@ == id@,
            model.normalized(),
            model is V4Flash <==> id@ == "deepseek-v4-flash"@,
            model is V4Pro <==> id@ == "deepseek-v4-pro"@,
    {
        proof {
            reveal_strlit("deepseek-v4-flash");
            reveal_strlit("deepseek-v4-pro");
            assert("deepseek-v4-flash"@.len() != "deepseek-v4-pro"@.len());
        }
        if text::text_eq(id, "deepseek-v4-flash") {
            Model::V4Flash
        } else if text::text_eq(id, "deepseek-v4-pro") {
            Model::V4Pro
        } else {
            Model::Pinned(id.to_owned())
        }
    }
}

impl FromStr for Model {
    type Err = std::convert::Infallible;

    /// Parses any model id into a [`Model`] (see [`Model::pinned`]).
    fn from_str(s: &str) -> (r: Result<Self, Self::Err>)
        ensures
            r matches Ok(model) && model@ == s@ && model.normalized(),
    {
        Ok(Model::pinned(s))
    }
}

/// Two models with the same id are the same variant, if both are normalized.
pub proof fn law_equal_ids_are_the_same_model(a: Model, b: Model)
    requires
        a.normalized(),
        b.normalized(),
        a@ == b@,
    ensures
        a is V4Flash <==> b is V4Flash,
        a is V4Pro <==> b is V4Pro,
        a is Pinned <==> b is Pinned,
{
    reveal_strlit("deepseek-v4-flash");
    reveal_strlit("deepseek-v4-pro");
    assert("deepseek-v4-flash"@.len() != "deepseek-v4-pro"@.len());
}

} // verus!
