use vstd::prelude::*;
use crate::json::JsonValue;

verus! {

/// An event flowing through the pipeline.
#[derive(Debug)]
pub struct Event {
    pub id: String,
    pub data: JsonValue,
    pub metadata: JsonValue,
}

/// What every pipeline component exposes: its name, its kind and the names of
/// the components it reads from.
pub trait Component {
    fn name(&self) -> &str;

    fn type_(&self) -> &str;

    fn inputs(&self) -> &[String];
}

} // verus!
