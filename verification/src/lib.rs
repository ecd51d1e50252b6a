//! Path helpers for an object-storage access layer: joining a path to a root,
//! normalizing paths and roots, and taking a path apart into its parent and
//! its last name.
pub mod laws;
pub mod lemmas;
pub mod path;
pub mod spec;
pub mod text;

pub use path::{
    build_abs_path, build_absolute_path, build_rel_path, build_relative_path,
    build_rooted_abs_path, build_rooted_absolute_path, build_tmp_path_from_seeds,
    build_tmp_path_of, get_basename, get_parent, normalize_path, normalize_root, postfix_char_of,
    validate_path, EntryMode, RANDOM_TMP_PATH_POSTFIX_LENGTH,
};
