//! Dense matrices over a generic element type, with a Gauss-Jordan solver for
//! small systems of linear equations, matrix inversion, determinants by
//! cofactor expansion and a filter for linearly dependent rows.
//!
//! - [`scalar`]: what is asked of an element type, and the constants zero
//!   and one.
//! - [`matrix`]: the matrix type, its entries and rows, transposes, minors
//!   and determinants.
//! - [`algebra`]: sums, differences, products and quotients.
//! - [`equality`]: exact comparison of matrices.
//! - [`dependency`]: rows that are multiples of an earlier row.
//! - [`lgs`]: solving a linear system and inverting a matrix.
//! - [`literal`]: the textual form `[[a,b],[c,d]]`.
//! - [`error`]: why an operation was refused.
//!
//! Nothing here searches for a pivot or detects a singular matrix: where a
//! diagonal entry vanishes, the result holds whatever the element type's
//! division yields for it.
pub mod algebra;
pub mod dependency;
pub mod equality;
pub mod error;
pub mod lgs;
pub mod literal;
pub mod matrix;
pub mod scalar;
