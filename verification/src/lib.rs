//! Reader and editor for the save and configuration files of a truck
//! simulation.
//!
//! The files are text in an object notation of units `class : id { ... }`
//! that hold fields `key: value`. The library finds units by counting
//! braces (`locate`), reads fields out of them (`field`, `extract`),
//! follows the references between them (`resolve`, `units`, `vehicles`,
//! `quicksave`) and replaces the value of a field in place (`edit`,
//! `vehicle_editor`, `save_data`). What holds of every document is proved
//! beside the functions it is about (`locate_laws`, `edit_laws`,
//! `resolve_laws`, `shift_laws`). Beside that it decodes the hex tokens
//! that floats are stored as (`hex_float`), tells plain files from sealed
//! ones (`decrypt`), reads and sets the lines of the configuration files
//! (`config`, `settings`), names the files of a profile (`paths`,
//! `profile`, `profile_clone`), and keeps what a session holds (`state`,
//! `translator`).
//!
//! A document is a sequence of bytes, and every function is stated over
//! such sequences. No function here reads or writes a file.

pub mod config;
pub mod decrypt;
pub mod edit;
pub mod edit_laws;
pub mod extract;
pub mod field;
pub mod hex_float;
pub mod locate;
pub mod locate_laws;
pub mod models;
pub mod paths;
pub mod profile;
pub mod profile_clone;
pub mod quicksave;
pub mod resolve;
pub mod resolve_laws;
pub mod save_data;
pub mod settings;
pub mod shift_laws;
pub mod state;
pub mod text;
pub mod translator;
pub mod units;
pub mod vehicle_editor;
pub mod vehicles;
