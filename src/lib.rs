//! Probabilistic primality tests (Fermat, Solovay–Strassen, Miller–Rabin)
//! over 64-bit candidates, with verified modular arithmetic underneath.
pub mod fermat;
pub mod jacobi_symbol;
pub mod miller_rabin;
pub mod solovay_strassen;
pub mod utils;
pub mod witness;
