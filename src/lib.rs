// Template and replica bookkeeping for the layouts of a game project: reading the
// project manifest, collecting template definitions, listing instances, and turning
// instances into replicas of a template.
pub mod fields;
pub mod layout;
pub mod replica;
pub mod registry;
pub mod manifest;
pub mod inspect;
pub mod archive;
