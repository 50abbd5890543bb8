//! A newsletter signup service in miniature: a health-check route, a
//! subscription route over form-encoded bodies, typed settings with derived
//! connection strings, and the lifecycle that provisions a throwaway,
//! uniquely named database for each integration-test run and tears it down
//! afterwards.

pub mod configuration;
pub mod provision;
pub mod routes;
pub mod telemetry;
pub mod text;
