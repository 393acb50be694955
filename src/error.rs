use vstd::prelude::*;

verus! {

/// Errors raised by the renderer runtime.
pub enum Error {
    /// A failure value handed back by the host platform, as text.
    FromJsValue(String),
    /// The platform cannot perform what was asked (no context, no window, a failed draw).
    UnsupportedOperation(String),
}

impl Error {
    /// Builds the error for a host failure value whose text may be absent; an absent
    /// text becomes the empty string.
    pub fn from_host_text(text: Option<String>) -> (r: Error)
        ensures
            r matches Error::FromJsValue(s) && s@ == match text {
                Some(t) => t@,
                None => Seq::<char>::empty(),
            },
    {
        match text {
            Some(t) => Error::FromJsValue(t),
            None => Error::FromJsValue(String::new()),
        }
    }
}

} // verus!
