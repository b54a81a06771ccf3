//! Verified core of an SVN commit browser: diff classification,
//! commit filtering, svn XML output parsing and paging decisions.

pub mod text;
pub mod diff;
pub mod dates;
pub mod svn;
pub mod xml;
pub mod state;
pub mod paging;
pub mod browse;
pub mod config;
