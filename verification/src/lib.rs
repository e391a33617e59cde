//! ClickHouse support for a SQL client: connection settings, statement
//! classification, query execution planning and schema assembly.
pub mod connect;
pub mod error;
pub mod execute;
pub mod parser;
pub mod schema;
pub mod text;
