use vstd::prelude::*;

pub mod text;
pub mod parser;
pub mod stream;
pub mod ring_deque;
pub mod duration;
pub mod book;
pub mod toc;
pub mod writer;
pub mod interface;
pub mod chapter;
pub mod scenario;
pub mod output;
pub mod markdown;
pub mod model;

verus! {

} // verus!
