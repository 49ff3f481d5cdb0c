//! What the evaluator knows of Java classes: their members and the
//! modifier flags of each.

pub mod calls;
pub mod jni;
