//! The dashboard's handle onto the metrics feed. The dashboard itself — its
//! template rendering and the historical queries behind its figures — is an
//! external collaborator; the core only hands it this entry point.

use vstd::prelude::*;

verus! {

/// The dashboard view over the monitors' metrics.
pub struct Dashboard {}

impl Default for Dashboard {
    fn default() -> (r: Self)
        ensures
            r == (Dashboard {  }),
    {
        Dashboard {  }
    }
}

impl Dashboard {
    /// The dashboard over the current metrics feed.
    pub fn get_metrics() -> (r: Dashboard)
        ensures
            r == (Dashboard {  }),
    {
        Dashboard::default()
    }
}

} // verus!
