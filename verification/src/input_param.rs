//! The declaration of an input parameter: a placeholder key the caller may
//! ask the user about, with an optional hint and an optional default.

use vstd::prelude::*;

verus! {

/// The properties a document can declare for an input parameter.
#[derive(Debug, Clone, PartialEq, Eq)]
pub struct InputParam {
    /// Hint to show the user when asking for the input.
    pub hint: Option<String>,
    /// Value to fall back on when the user gives none.
    pub default: Option<String>,
}

/// The mathematical model of an [`InputParam`].
pub struct InputParamModel {
    pub hint: Option<Seq<char>>,
    pub default: Option<Seq<char>>,
}

impl View for InputParam {
    type V = InputParamModel;

    open spec fn view(&self) -> InputParamModel {
        InputParamModel {
            hint: match &self.hint {
                Some(h) => Some(h@),
                None => None,
            },
            default: match &self.default {
                Some(d) => Some(d@),
                None => None,
            },
        }
    }
}

impl DeepView for InputParam {
    type V = InputParamModel;

    open spec fn deep_view(&self) -> InputParamModel {
        self.view()
    }
}

impl Default for InputParam {
    /// An input parameter with no hint and no default.
    fn default() -> (r: InputParam)
        ensures
            r@.hint is None,
            r@.default is None,
    {
        InputParam { hint: None, default: None }
    }
}

} // verus!
