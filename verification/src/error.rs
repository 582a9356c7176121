//! What can end a search before it gives a result.

use vstd::prelude::*;

verus! {

/// The failures of a search. The last three carry the text of a cause that
/// arose outside the library.
#[derive(Debug, PartialEq, Eq)]
pub enum MyError {
    /// Neither a place nor a name was asked for.
    NoFilterProvided,
    /// Both a second corner and a width or height were given.
    DimensionAndCoordinateRange,
    /// The catalog could not be read.
    StacError(String),
    /// An item could not be handed on.
    SendError(String),
    /// A task did not run to its end.
    JoinError(String),
}

/// The text of an error.
pub open spec fn message_of(e: MyError) -> Seq<char> {
    match e {
        MyError::NoFilterProvided =>
            "Neither spatial filter nor content filter were provided. This will cause a search of the whole bucket- aborting."@,
        MyError::DimensionAndCoordinateRange =>
            "Cannot specify both dimensions (height_m, width_m) and a coordinate range. Please choose one."@,
        MyError::StacError(cause) => "STAC error: "@ + cause@,
        MyError::SendError(cause) => "STAC error: "@ + cause@,
        MyError::JoinError(cause) => "Join error: "@ + cause@,
    }
}

impl MyError {
    /// The text of this error.
    pub fn message(&self) -> (text: String)
        ensures
            text@ == message_of(*self),
    {
        match self {
            MyError::NoFilterProvided => {
                "Neither spatial filter nor content filter were provided. This will cause a search of the whole bucket- aborting.".to_owned()
            },
            MyError::DimensionAndCoordinateRange => {
                "Cannot specify both dimensions (height_m, width_m) and a coordinate range. Please choose one.".to_owned()
            },
            MyError::StacError(cause) => {
                let mut text = "STAC error: ".to_owned();
                text.append(cause.as_str());
                text
            },
            MyError::SendError(cause) => {
                let mut text = "STAC error: ".to_owned();
                text.append(cause.as_str());
                text
            },
            MyError::JoinError(cause) => {
                let mut text = "Join error: ".to_owned();
                text.append(cause.as_str());
                text
            },
        }
    }

    /// The line that reports this error.
    pub fn report(&self) -> (line: String)
        ensures
            line@ == "Error: "@ + message_of(*self),
    {
        let mut line = "Error: ".to_owned();
        let text = self.message();
        line.append(text.as_str());
        line
    }
}

} // verus!
