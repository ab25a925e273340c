//! Verified core of `kwd`, a wrapper that hands kaniko one `--destination`
//! argument per image tag, and of its companion `copier`, which copies one
//! file without following symbolic links.

pub mod checks;
pub mod config;
pub mod image;
pub mod order;
pub mod paths;
pub mod tags;
pub mod tagset;
pub mod text;
pub mod walk;

pub use config::{build_config, destination_args, KanikoConfig};
pub use image::build_image;
pub use paths::normalize_path_result;
pub use tags::{is_valid_tag, parse_tags};
pub use tagset::TagSet;
