//! OpenRouter, which speaks the OpenResponses protocol under an id of its own.

use vstd::prelude::*;

use crate::drivers::openresponses::OpenResponsesDriver;

verus! {

/// The service's own address.
pub const OPENROUTER_BASE_URL: &'static str = "https://openrouter.ai/api/v1";

/// Speaks to OpenRouter.
#[derive(Debug)]
pub struct OpenRouterDriver {
    pub inner: OpenResponsesDriver,
}

impl OpenRouterDriver {
    /// A driver that asks the service to keep nothing.
    pub fn new() -> (r: Self)
        ensures
            !r.inner.store,
    {
        OpenRouterDriver { inner: OpenResponsesDriver::new() }
    }

    /// The id that the driver is registered under, by which catalogs and
    /// configuration know the service.
    pub fn id(&self) -> (r: &'static str)
        ensures
            r@ == "openrouter"@,
    {
        "openrouter"
    }
}

} // verus!
