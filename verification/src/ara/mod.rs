pub mod aramorph;
