//! Blink's logic: what the editor, its preview and its exports decide and compute.

pub mod application;
pub mod around;
pub mod autolink;
pub mod autolink_laws;
pub mod backup;
pub mod blocks;
pub mod cell;
pub mod conflict;
pub mod document;
pub mod document_laws;
pub mod emoji;
pub mod emoji_laws;
pub mod event;
pub mod export;
pub mod folder;
pub mod folder_laws;
pub mod folds;
pub mod github;
pub mod groups;
pub mod html;
pub mod html_laws;
pub mod images;
pub mod labels;
pub mod languages;
pub mod links;
pub mod math;
pub mod page;
pub mod page_laws;
pub mod paging;
pub mod parse;
pub mod path;
pub mod pdf;
pub mod pdf_laws;
pub mod pdf_text_laws;
pub mod pictures;
pub mod preview;
pub mod preview_event_laws;
pub mod preview_laws;
pub mod preview_text_laws;
pub mod reading_laws;
pub mod recovery;
pub mod refresh;
pub mod render;
pub mod render_laws;
pub mod rewrite;
pub mod safety;
pub mod scripts;
pub mod search;
pub mod setting;
pub mod settings;
pub mod sorting;
pub mod table;
pub mod text;
pub mod text_laws;
pub mod window;
