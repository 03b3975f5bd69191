//! The review of clusters in a browser.
pub mod routes;

use vstd::prelude::*;

verus! {

}
