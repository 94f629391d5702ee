//! A threaded discussion board over flat key-value namespaces.
//!
//! Every post is addressed by a path of alphanumeric characters; the path is
//! stored under a fixed-width, left-padded key so that the direct replies of
//! a post are found by one prefix scan.
pub mod key_codec;
pub mod kv;
pub mod post_obj;
pub mod user_obj;
pub mod crypto_helpers;
pub mod db;
pub mod post;
pub mod cookies;
pub mod render;
