pub mod text;
pub mod comments;
pub mod story;
pub mod tree;
pub mod tree_laws;
pub mod rate_limiter;
pub mod limiter_laws;
pub mod cli;
pub mod nav;
pub mod nav_laws;
pub mod screen;
pub mod input;
pub mod model;
pub mod model_laws;
pub mod layout;
pub mod logging;
pub mod store;
pub mod wrap;
pub mod ui_text;
pub mod feed;
