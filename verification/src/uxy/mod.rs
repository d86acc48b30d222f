pub mod xiinthlea;
