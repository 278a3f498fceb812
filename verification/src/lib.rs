//! The request-handling logic of the StudyMood backend: bearer-token
//! extraction, HTTP byte-range planning for audio streaming, the music
//! catalogue, study streaks, to-do updates and the verification e-mail.
//! Network, database and file-system work lives in `app/`.

pub mod text;
pub mod range;
pub mod auth;
pub mod streaks;
pub mod music;
pub mod todos;
pub mod email;
