//! Core of a personal memo publishing service: credential resolution,
//! the consistency rules that keep memo, tag, comment and like data mutually
//! correct, and the permission-aware listing queries, all stated and proved
//! over an explicit model of the relational store.

pub mod error;
pub mod text;
pub mod tags;
pub mod model;
pub mod auth;
pub mod settings;
pub mod memo;
pub mod timeutil;
pub mod page;
pub mod resource;
pub mod listing;
pub mod config;
pub mod script;
pub mod token;
pub mod user;
pub mod webhook;
pub mod feed;
pub mod comment;
