//! Translation of EPUB books: the rules that decide which text is sent to the
//! translation service, where each answer is written, and how the archive is
//! laid out again afterwards.

pub mod book;
pub mod credentials;
pub mod deepl;
pub mod dispatcher;
pub mod driver;
pub mod epub;
pub mod pipeline;
pub mod pipeline_run;
pub mod text;
pub mod xhtml;
