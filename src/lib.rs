//! An interpreter for a two-tape, byte-oriented esoteric language: one tape
//! holds the instructions, the other the memory cells, and a cursor on each
//! picks the active instruction and the active cell.

mod brackets;
mod operation;
mod program;
mod tape;

pub use brackets::{
    balanced, check_balanced, delta, lemma_close_exists, lemma_level_prefix,
    lemma_level_step_bound, lemma_noop_tail, lemma_open_exists, lemma_pair_brackets,
    lemma_pair_unique, level, pairs,
};
pub use operation::{byte_op, parse, parsed, symbol_op, Operation};
pub use program::{
    lemma_growth_doubles, lemma_inc_dec_inverse, lemma_run_keeps_wf, lemma_step_keeps_wf,
    wrap_dec, wrap_inc, LoadError, Machine, Program, Signal, MEMORY_CELLS,
};
pub use tape::{grown, Blank, Tape};
