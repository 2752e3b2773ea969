//! What the exchange answers instead of data.

use vstd::prelude::*;

verus! {

#[derive(Debug)]
pub enum LighterError {
    ApiError { code: i32, message: String },
}

pub enum LighterFault {
    ApiError { code: i32, message: Seq<char> },
}

impl View for LighterError {
    type V = LighterFault;

    open spec fn view(&self) -> LighterFault {
        match *self {
            LighterError::ApiError { code, message } => LighterFault::ApiError { code, message: message@ },
        }
    }
}

} // verus!
