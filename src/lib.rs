//! Lazily sampled infinite arrays and operators, and the shifted QR iteration
//! that estimates an operator's spectrum from its leading blocks.
pub mod infinity;
pub mod ranges;
pub mod arrays;
pub mod broadcasting;
pub mod cache;
pub mod diagonal;
pub mod operator;
pub mod iqr;

pub use infinity::{Infinity, INFINITY, get_infinity};
pub use ranges::{OneToInf, InfUnitRange, InfStepRange};
pub use arrays::{Shape, Ones, Zeros, Fill};
pub use broadcasting::BroadcastArray;
pub use cache::{cache, CachedArray};
pub use diagonal::InfiniteDiagonal;
pub use operator::{
    InfiniteOperator, Sampler, FnSampler, DiagonalSampler, TridiagonalSampler, SquareMatrix,
    create_diagonal_operator, create_tridiagonal_operator,
};
pub use iqr::{
    Scalar, IqrError, IqrResult, IqrSpectrumResult, iqr_algorithm, iqr_spectrum, qr_decomposition,
    select_shift, check_arguments, largest_size,
};
