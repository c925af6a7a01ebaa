//! Generator configuration: the output-partitioning policy, the root
//! namespace, and the containers to leave out — with the one validation
//! rule the engine enforces.

use vstd::prelude::*;

use crate::strutil::strs_view;

verus! {

/// How the documents are partitioned.
#[derive(Debug, Clone, Copy, PartialEq, Eq, Structural)]
pub enum OutputOrder {
    /// One document per source file; only used aliases are inlined.
    ByFile,
    /// One document per class in the root namespace; used local classes
    /// and aliases are inlined.  Requires a root namespace.
    ByClass,
}

impl Default for OutputOrder {
    fn default() -> (r: Self)
        ensures
            r == OutputOrder::ByFile,
    {
        OutputOrder::ByFile
    }
}

/// Options for the documentation generator.
pub struct Options {
    /// Path of the annotated library source handed to the extractor.
    pub library: String,
    /// Path the documents are written under.
    pub output: String,
    /// Containers dropped from the output entirely.
    pub excluded_classes: Vec<String>,
    /// The partitioning policy.
    pub order: OutputOrder,
    /// The root namespace; only containers inside it get documents under
    /// the by-class policy.  Empty when unset.
    pub namespace: String,
}

/// Ghost model of [`Options`].
pub struct OptionsV {
    pub library: Seq<char>,
    pub output: Seq<char>,
    pub excluded_classes: Seq<Seq<char>>,
    pub order: OutputOrder,
    pub namespace: Seq<char>,
}

impl View for Options {
    type V = OptionsV;

    open spec fn view(&self) -> OptionsV {
        OptionsV {
            library: self.library@,
            output: self.output@,
            excluded_classes: strs_view(self.excluded_classes@),
            order: self.order,
            namespace: self.namespace@,
        }
    }
}

/// What can go wrong before any graph work begins.
#[derive(Debug)]
pub enum Error {
    /// The options contradict each other; the text says how.
    Options(String),
}

impl Options {
    /// The one validation rule of the engine: partitioning by class
    /// needs a root namespace to decide which classes get documents.
    pub fn validate(&self) -> (r: Result<(), Error>)
        ensures
            r is Ok <==> !(self@.order == OutputOrder::ByClass && self@.namespace.len() == 0),
    {
        if matches!(self.order, OutputOrder::ByClass) && self.namespace.unicode_len() == 0 {
            Result::Err(
                Error::Options(
                    String::from_str("the order by-class option requires a namespace to be set too"),
                ),
            )
        } else {
            Result::Ok(())
        }
    }
}

} // verus!
