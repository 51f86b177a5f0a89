//! Template parameters: a default value to be replaced in a set of files.
use crate::replace::{paths_view, plan, ops_view, Replace, ReplaceOp};
use vstd::prelude::*;

verus! {

/// A parameter to be filled in by the user in a flake template.
#[derive(Debug)]
pub struct Param {
    /// Main message when prompting the user for input
    name: String,
    /// Message displayed at the line below the prompt.
    help: String,
    /// The default value used in the template files, that must be replaced by
    /// the user provided value (if it is different). Never empty.
    default: String,
    /// Short hint that describes the expected value of the input.
    placeholder: Option<String>,
    /// Files to do replacement on.
    files: Vec<String>,
    /// Whether the user must provide a value
    required: bool,
}

/// What a `Param` holds, over the characters of its texts.
pub struct ParamView {
    pub name: Seq<char>,
    pub help: Seq<char>,
    pub default: Seq<char>,
    pub placeholder: Option<Seq<char>>,
    pub files: Seq<Seq<char>>,
    pub required: bool,
}

impl View for Param {
    type V = ParamView;

    closed spec fn view(&self) -> ParamView {
        ParamView {
            name: self.name@,
            help: self.help@,
            default: self.default@,
            placeholder: match self.placeholder {
                Some(p) => Some(p@),
                None => None,
            },
            files: paths_view(self.files@),
            required: self.required,
        }
    }
}

impl Param {
    #[verifier::type_invariant]
    spec fn default_not_empty(self) -> bool {
        self.default@.len() > 0
    }

    /// A parameter; `None` when `default` is empty, as an empty default would
    /// match everywhere.
    pub fn new(
        name: String,
        help: String,
        default: String,
        placeholder: Option<String>,
        files: Vec<String>,
        required: bool,
    ) -> (r: Option<Param>)
        ensures
            r is None <==> default@.len() == 0,
            r matches Some(p) ==> p@ == (ParamView {
                name: name@,
                help: help@,
                default: default@,
                placeholder: match placeholder {
                    Some(s) => Some(s@),
                    None => None,
                },
                files: paths_view(files@),
                required,
            }),
    {
        if default.as_str().is_empty() {
            None
        } else {
            Some(Param { name, help, default, placeholder, files, required })
        }
    }

    /// The parameter's name.
    pub fn name(&self) -> (r: &String)
        ensures
            r@ == self@.name,
    {
        &self.name
    }

    /// The help message shown below the prompt.
    pub fn help(&self) -> (r: &String)
        ensures
            r@ == self@.help,
    {
        &self.help
    }

    /// The default value; it is never empty.
    pub fn default(&self) -> (r: &String)
        ensures
            r@ == self@.default,
            r@.len() > 0,
    {
        proof {
            use_type_invariant(self);
        }
        &self.default
    }

    /// The hint shown in an empty prompt.
    pub fn placeholder(&self) -> (r: Option<&String>)
        ensures
            r is Some <==> self@.placeholder is Some,
            r matches Some(p) ==> self@.placeholder == Some(p@),
    {
        match &self.placeholder {
            Some(p) => Some(p),
            None => None,
        }
    }

    /// The files in which the default value occurs.
    pub fn files(&self) -> (r: &Vec<String>)
        ensures
            paths_view(r@) == self@.files,
    {
        &self.files
    }

    /// Whether the user must provide a value.
    pub fn required(&self) -> (r: bool)
        ensures
            r == self@.required,
    {
        self.required
    }

    /// Whether `value` may stand as this parameter's value: a required
    /// parameter takes no empty value.
    pub fn accepts(&self, value: &str) -> (r: bool)
        ensures
            r == (!self@.required || value@.len() > 0),
    {
        !self.required || !value.is_empty()
    }

    /// The replacement of this parameter's default value by `to`, with the
    /// operations that carry it out.
    pub fn replacement(&self, to: &str) -> (r: Replace)
        ensures
            r.name@ == self@.name,
            r.from@ == self@.default,
            r.to@ == to@,
            ops_view(r.ops@) == plan(self@.default, to@, self@.files),
    {
        proof {
            use_type_invariant(self);
        }
        let ops = ReplaceOp::ops_for_replacing(self.default.as_str(), to, self.files.as_slice());
        Replace {
            name: self.name.clone(),
            from: self.default.clone(),
            to: String::from_str(to),
            ops,
        }
    }
}

} // verus!
