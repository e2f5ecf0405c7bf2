//! Errors of the state trie.

use vstd::prelude::*;

verus! {

/// Why the trie gave up.
#[derive(Debug)]
pub enum TrieError {
    DatabaseError(String),
    InvalidNode(String),
    InvalidProof(String),
}

pub enum TrieErrorView {
    DatabaseError(Seq<char>),
    InvalidNode(Seq<char>),
    InvalidProof(Seq<char>),
}

impl View for TrieError {
    type V = TrieErrorView;

    open spec fn view(&self) -> TrieErrorView {
        match self {
            TrieError::DatabaseError(s) => TrieErrorView::DatabaseError(s@),
            TrieError::InvalidNode(s) => TrieErrorView::InvalidNode(s@),
            TrieError::InvalidProof(s) => TrieErrorView::InvalidProof(s@),
        }
    }
}

} // verus!
