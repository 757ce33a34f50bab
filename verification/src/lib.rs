mod buffer;
mod laws;
mod state;

pub use buffer::Backend;
pub use buffer::Frontend;
pub use laws::lemma_guard_no_ops;
pub use laws::lemma_insert_text_char_by_char;
pub use laws::lemma_round_trip;
pub use state::Direction;
pub use state::EditorState;
pub use state::join_lines;
pub use state::lemma_insert_char_wf;
pub use state::lemma_insert_text_snoc;
pub use state::lemma_move_cursor_wf;
pub use state::lemma_remove_char_wf;
