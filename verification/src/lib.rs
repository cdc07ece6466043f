//! Content pipeline and post catalogue of a small personal site.
pub mod text;
pub mod paths;
pub mod paths_lemmas;
pub mod hashing;
pub mod locations;
pub mod order;
pub mod plain;
pub mod metadata;
pub mod frontmatter;
pub mod etags;
pub mod catalogue;
pub mod page;
pub mod melodies;
pub mod rebuild;
pub mod highlight;
pub mod options;
