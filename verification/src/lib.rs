use vstd::prelude::*;

pub mod text;
pub mod json;
pub mod number;
pub mod item;
pub mod repo;
pub mod html;
pub mod fetcher;
pub mod source;
pub mod hn;
pub mod lobsters;
pub mod cache;
pub mod clock;
pub mod output;
pub mod run;
pub mod summary;
pub mod format;
pub mod keychain;
pub mod notify;

verus! {
}
