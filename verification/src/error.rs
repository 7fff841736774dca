//! Application-level errors: a configuration that could not be loaded, or
//! one that failed validation.

use vstd::prelude::*;
use crate::config::ConfigError;
use crate::config::config_error_message;

verus! {

/// Why the application cannot start.
#[derive(Debug)]
pub enum ApplicationError {
    /// The configuration could not be read or decoded.
    LoadConfigError { message: String },
    /// The configuration was read but is invalid.
    ConfigError { message: String },
}

pub type ApplicationResult = Result<(), ApplicationError>;

impl ApplicationError {
    pub fn read_config_error(error: ConfigError) -> (e: ApplicationError)
        ensures
            e matches ApplicationError::LoadConfigError { message } && message@
                == config_error_message(error),
    {
        ApplicationError::LoadConfigError { message: error.message() }
    }

    pub fn config_error(error: ConfigError) -> (e: ApplicationError)
        ensures
            e matches ApplicationError::ConfigError { message } && message@
                == config_error_message(error),
    {
        ApplicationError::ConfigError { message: error.message() }
    }

    /// The human-readable description of the failure.
    pub fn message(&self) -> (r: &str)
        ensures
            match *self {
                ApplicationError::LoadConfigError { message } => r@ == message@,
                ApplicationError::ConfigError { message } => r@ == message@,
            },
    {
        match self {
            ApplicationError::LoadConfigError { message } => message.as_str(),
            ApplicationError::ConfigError { message } => message.as_str(),
        }
    }
}

} // verus!
