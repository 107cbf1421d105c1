//! Payloads that are provided, left out, or asked for by default.

use vstd::prelude::*;

verus! {

/// A type for a payload that can be either provided, not provided, or requested to
/// be the default payload for that payload type.
///
/// This is used for the partition table and bootloader images, where the default
/// partition table and bootloader are used if requested with `Default`.
#[derive(Copy, Clone, Eq, PartialEq, Hash)]
pub enum Payload<T> {
    /// No payload provided
    NotProvided,
    /// Request default payload
    Default,
    /// Provided payload
    Provided(T),
}

impl<T> Payload<T> {
    /// The payload that `data` stands for, a missing one made good where that is asked.
    pub open spec fn spec_new(data: Option<T>, supply_default: bool) -> Self {
        match data {
            Some(data) => Payload::Provided(data),
            None => if supply_default {
                Payload::Default
            } else {
                Payload::NotProvided
            },
        }
    }

    /// Create a new `Payload` with the given data and whether to supply the default
    /// payload if the data is `None`.
    pub fn new(data: Option<T>, supply_default: bool) -> (payload: Self)
        ensures
            payload == Self::spec_new(data, supply_default),
    {
        match data {
            Some(data) => Self::Provided(data),
            None => {
                if supply_default {
                    Self::Default
                } else {
                    Self::NotProvided
                }
            },
        }
    }

    /// Get the data from the payload, supplying the default if requested.
    ///
    /// `f` makes the default. It is called for `Default` alone, and what it answers
    /// is the outcome then, its error included.
    pub fn into_option<E, F>(self, f: F) -> (data: Result<Option<T>, E>) where
        F: FnOnce() -> Result<T, E>,

        requires
            self is Default ==> f.requires(()),
        ensures
            self is NotProvided ==> data == Ok::<Option<T>, E>(None),
            self matches Payload::Provided(given) ==> data == Ok::<Option<T>, E>(Some(given)),
            self is Default ==> exists|answer: Result<T, E>|
                #![trigger f.ensures((), answer)]
                f.ensures((), answer) && data == (match answer {
                    Ok(made) => Ok::<Option<T>, E>(Some(made)),
                    Err(e) => Err(e),
                }),
    {
        match self {
            Self::NotProvided => Ok(None),
            Self::Default => {
                let answer = f();
                match answer {
                    Ok(made) => Ok(Some(made)),
                    Err(e) => Err(e),
                }
            },
            Self::Provided(data) => Ok(Some(data)),
        }
    }
}

} // verus!
