//! Static check that a marked region of code never reaches a panic primitive.
//!
//! A program is handed to the library one compilation unit at a time, as a
//! [`model::Unit`]: its functions, their bodies as expression trees, and the
//! resolution of every call. The library walks the calls that a restricted
//! region can reach, reports each path that ends in a panic primitive, and
//! keeps the calls that leave the unit until their owning unit is loaded.
//!
//! [`hir_traverser::HirTraverser`] runs the analysis of a whole program;
//! [`walk`] says what one walk yields, [`laws`] and [`propagation`] what
//! holds of every walk and of every analysis.

pub mod dep_handler;
pub mod errors;
pub mod function_collectors;
pub mod function_handlers;
pub mod hir_traverser;
pub mod laws;
pub mod model;
pub mod pending;
pub mod propagation;
pub mod rustc_arg_handlers;
pub mod text;
pub mod traversers;
pub mod utils;
pub mod walk;
