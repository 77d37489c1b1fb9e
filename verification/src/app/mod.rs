//! The transparency-log application that feeds data to Streamlet: the
//! interface between the two, the directory service, the application and its
//! client.
pub mod app_interface;
pub mod directory;
pub mod application;
pub mod app_client;
