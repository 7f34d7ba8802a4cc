//! The logic of MinDash, a dashboard for the machines of a homelab.
//!
//! Every function here is pure but for the clock and the source of randomness:
//! what a request is answered, what a command line is, what the output of a
//! command means. Reading files, running commands and serving requests is left
//! to the program around the library, which hands plain values in and takes
//! plain values out.
//!
//! * Foundations: [`text`], [`numbers`], [`order`], [`bytes`], [`clock`],
//!   [`json`], [`urls`], [`errors`], [`reply`].
//! * What is stored: [`config`] and [`widgets`], the registry that settings are
//!   brought into the shape of; [`state`] with the cache.
//! * Who may see it: [`auth`] for passwords and sessions, [`access`] for the
//!   check that every request passes.
//! * The control plane: [`shell`] and [`net`] for commands, [`paths`] and
//!   [`listing`] for the confined file browser, [`stats`] and [`win_stats`] for
//!   what the collectors report, [`control`] for the requests.
//! * Widgets and the configuration over HTTP: [`api`], with data from
//!   [`providers`], [`weather`] and [`feed`].
//! * The dashboard in the browser: [`client`], [`panels`], [`cards`], [`theme`].
//! * The command line: [`cli`].

pub mod access;
pub mod api;
pub mod auth;
pub mod bytes;
pub mod cards;
pub mod cli;
pub mod client;
pub mod clock;
pub mod config;
pub mod control;
pub mod errors;
pub mod feed;
pub mod json;
pub mod listing;
pub mod net;
pub mod numbers;
pub mod order;
pub mod panels;
pub mod paths;
pub mod providers;
pub mod reply;
pub mod shell;
pub mod state;
pub mod stats;
pub mod text;
pub mod theme;
pub mod urls;
pub mod weather;
pub mod widgets;
pub mod win_stats;
