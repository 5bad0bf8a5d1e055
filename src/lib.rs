// An aggregating proxy for the Model Context Protocol: the catalogue of
// downstream tools and resources, the names they are listed under, the
// routing of tool calls, and the table of live downstream sessions.

pub mod catalog;
pub mod dispatch;
pub mod naming;
pub mod sessions;
pub mod types;
