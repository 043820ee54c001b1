//! Names and limits shared by the provider.
use vstd::prelude::*;

verus! {

/// The provider's name in caldir.
pub const PROVIDER_NAME: &'static str = "proton";

/// The Proton API that sessions talk to unless told otherwise.
pub const PROTON_API_URL: &'static str = "https://mail.proton.me/api";

/// The application version sent to the Proton API.
pub const APP_VERSION: &'static str = "Other";

/// The iCalendar property that holds the Proton event ID of a local event.
pub const ITEM_UID_PROPERTY: &'static str = "X-PROTON-ITEM";

/// Number of events requested per page of a Proton event listing.
pub const PAGE_SIZE: usize = 100;

/// The page size is one the Proton API accepts (1 to 100).
pub proof fn lemma_page_size_in_bounds()
    ensures
        1 <= PAGE_SIZE <= 100,
{
}

} // verus!
