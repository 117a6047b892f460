//! The record that the parsers hand to the normalizer and the emitter.

use crate::text::texts;
use crate::time::{Time, TimeView};
use vstd::prelude::*;

verus! {

/// What a [`Block`] stands for.
pub struct BlockView {
    pub start: TimeView,
    pub end: TimeView,
    pub content: Seq<Seq<char>>,
}

/// One subtitle: when it shows, when it goes, and its lines of text. The end
/// need not come after the start, and the content may be empty.
#[derive(Debug, Clone, PartialEq)]
pub struct Block {
    pub start: Time,
    pub end: Time,
    pub content: Vec<String>,
}

impl View for Block {
    type V = BlockView;

    open spec fn view(&self) -> BlockView {
        BlockView { start: self.start@, end: self.end@, content: texts(self.content@) }
    }
}

/// What the blocks of `v` stand for, in order.
pub open spec fn block_views(v: Seq<Block>) -> Seq<BlockView> {
    Seq::new(v.len(), |i: int| v[i]@)
}

} // verus!
