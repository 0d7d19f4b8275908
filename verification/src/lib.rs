//! The core parsing and query-translation layer of an OData v4 server:
//! request URLs become structured resources, resources lower into a
//! neutral relational query plan, and a backend catalog reflects into the
//! entity data model served at `$metadata`.

pub mod bridge;
pub mod chars;
pub mod columns;
pub mod edm;
pub mod endpoint;
pub mod error;
pub mod filter;
pub mod lower;
pub mod model;
pub mod path;
pub mod reflect;
pub mod resource;
pub mod value;
