pub mod verbs;
