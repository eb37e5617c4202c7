//! The computing parts of the file, network and archive helpers.

pub use crate::ini::configure_ini_content;
pub use crate::path_env::clean_and_update_path_string;
pub use crate::releases::scrape_php_releases_from_html;
