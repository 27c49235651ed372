//! The gateway configuration model and the container-label convention that the
//! desired state is read from.
//!
//! The API is versioned, with a maturity ladder (`v1alpha1`, `v1beta1`, `v1`);
//! a new version becomes a sibling module.

pub mod v1alpha1;
