//! What the review window's widgets decide: which rows are drawn and how, what
//! a gesture or a key does to the document.

pub mod caret;
pub mod cards;
pub mod collapsed_run;
pub mod compose;
pub mod diff_line;
pub mod dock;
pub mod file_browser;
pub mod find;
pub mod find_bar;
pub mod folding;
pub mod gutter;
pub mod pickers;
pub mod review_list;
pub mod review_pane;
pub mod seen_bar;
pub mod share;
pub mod sticky;
