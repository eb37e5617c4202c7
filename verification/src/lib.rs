//! Verified core of a PHP version manager: version ordering, PATH cleanup,
//! php.ini editing, release-page parsing and the decisions behind each command.

pub mod text;
pub mod numbers;
pub mod update;
pub mod path_env;
pub mod ini;
pub mod releases;
pub mod commands;
pub mod registry;
pub mod php_cli;
pub mod helpers;
pub mod db;
