//! Schema-driven messages with reflection.
//!
//! A schema unit is loaded into an index (`index`), reached through cheap
//! descriptors (`descriptor`), and its messages are read and written
//! through the accessor protocol (`accessor`, `map`) whether their storage
//! is built at run time (`dynamic`) or compiled ahead of time
//! (`generated`, `well_known`). Values (`value`) compare reflectively, with
//! NaNs equal or not (`float`); `laws` states what holds across operations.
//! `json`, `json_merge` and `base64` read JSON values into messages; `codegen` and
//! `model` serve code generation and the schema parser.
use vstd::prelude::*;

pub mod float;
pub mod schema;
pub mod index;
pub mod descriptor;
pub mod value;
pub mod dynamic;
pub mod accessor;
pub mod map;
pub mod generated;
pub mod well_known;
pub mod laws;
pub mod codegen;
pub mod model;
pub mod base64;
pub mod json;
pub mod json_merge;

verus! {

} // verus!
