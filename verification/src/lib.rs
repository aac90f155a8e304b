pub mod credentials;
pub mod descriptors;
pub mod encoding;
pub mod errors;
pub mod features;
pub mod roundtrip;
