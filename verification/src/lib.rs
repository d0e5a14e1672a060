//! Composable text-transformation pipelines.
//!
//! Two stage families — string normalizers and span-producing pre-tokenizers —
//! share one design: a closed catalog of concrete stages, shared stage cells
//! held in an arena so that one configured stage can be referenced from many
//! pipelines, order-preserving flattening composition, uniform dispatch over
//! single stages and sequences, and a structural codec that recovers a stage's
//! concrete kind from the shape of its field set.
//!
//! The leaf text transformations themselves are delegated to the `tokenizers`
//! backend; everything around them — composition, aliasing, dispatch, offset
//! bookkeeping and the codec — is stated and verified here.

pub mod arena;
pub mod backend;
pub mod codec;
pub mod errors;
pub mod normalizers;
pub mod pre_tokenizers;
