//! A package manager for a shared, multi-user volume: each user publishes
//! packages into a namespace of their own, and anyone can install packages
//! from any configured namespace.
pub mod cli;
pub mod config;
pub mod error;
pub mod fs;
pub mod install;
pub mod installer;
pub mod logger;
pub mod models;
pub mod perms;
pub mod publish;
pub mod registry;
pub mod repository;
pub mod resolver;
pub mod text;
pub mod uninstall;
pub mod validator;
pub mod version;
