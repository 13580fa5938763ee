//! A line-oriented JSON primality service: line framing, request
//! validation and an arbitrary-precision primality test.
pub mod bignum;
pub mod prime;
pub mod decimal;
pub mod request;
pub mod connection;
