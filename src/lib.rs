//! Authorization core of the architecture-heritage community service:
//! signed bearer tokens, the capability gates built on them, and the
//! qualification exam that promotes a member to verified contributor.

pub mod claims;
pub mod community;
pub mod config;
pub mod error;
pub mod exam;
pub mod gate;
pub mod hash;
pub mod html;
pub mod jwt;
pub mod login;
pub mod payload;
pub mod requests;
pub mod token;
pub mod validation;
