pub mod csfloat;
