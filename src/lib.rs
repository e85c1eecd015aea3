pub mod scalar;
pub mod activation;
pub mod error_func;
pub mod neuro;
pub mod record;
pub mod queens;
