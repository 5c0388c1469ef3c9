//! What a server makes of the services: groups, publisher files, and the routing
//! of messages.

pub mod group_laws;
pub mod groups;
pub mod locale;
pub mod locale_laws;
pub mod publisher_file;
pub mod publisher_laws;
pub mod routing;
