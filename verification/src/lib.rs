//! The verified core of a small desktop tool that runs an AList file server and a
//! bore tunnel to it.
//!
//! Nothing here touches a file, a process or the network. What the tool decides is
//! decided here, step by step, from what was found out so far; what is to be done
//! next is handed out as a value.
//!
//! - [`locate`] finds the executable of a service;
//! - [`service`] starts and stops the services and knows which of them run;
//! - [`alist`] and [`bore`] make sense of what the services print;
//! - [`wait`] waits for a line of the output of any program;
//! - [`password`] keeps the password of AList, with [`base64`] and [`clock`];
//! - [`output`], [`text`] and [`config`] serve the others.

pub mod alist;
pub mod base64;
pub mod bore;
pub mod clock;
pub mod config;
pub mod locate;
pub mod output;
pub mod password;
pub mod service;
pub mod text;
pub mod wait;
