//! A static-content build engine: documents, templates, pipes and the
//! expansion of build actions into page renders.

pub mod actions;
pub mod io;
pub mod layout;
pub mod parsers;
pub mod pipes;
pub mod semantics;
pub mod template;
pub mod text;
pub mod utils;
pub mod yaml;
