use vstd::prelude::*;

verus! {

/// What the configuration supplies to the core: where the data lives
/// and how datetimes read and print. Loading and storing it is the
/// CLI layer's business.
pub struct AppConfig {
    pub data_dir: String,
    pub datetime_format: String,
}

} // verus!
