//! Coordinator core for a pool of remote decryption workers.
//!
//! The library is the verified heart of the coordinator: the framed wire
//! protocol spoken with workers ([`codec`]), the worker registry, pending
//! task queue and in-flight task map with their dispatch rules ([`manager`]),
//! the reconciliation of worker responses into persistence and RPC actions
//! ([`reconcile`]), and the pure request/response shaping of the surrounding
//! HTTP layer ([`rpc`], [`web`]). All I/O — sockets, timers, HTTP — lives
//! outside the library and drives it through these functions.

pub mod codec;
pub mod manager;
pub mod reconcile;
pub mod rpc;
pub mod web;
