//! Verified core of an image-notification bot: the protocol spoken with the
//! tag evaluation process, the per-guild register of monitored channels, the
//! detection of images in messages, and the decisions taken on gateway events.

pub mod cache;
pub mod channels;
pub mod evaluater;
pub mod handler;
pub mod image;
pub mod numbers;
pub mod text;
