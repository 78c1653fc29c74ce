//! Dense linear algebra over strided, zero-copy views of row-major buffers.
//!
//! An owned matrix ([`Mat`]) stores its elements row by row. Borrowed views
//! ([`MatView`], [`MutView`]) describe a rectangle of such a buffer by an
//! offset, a shape and a stride; [`Trans`] relabels rows as columns without
//! touching memory. Every type has a mathematical model ([`Grid`] for
//! two-dimensional data, `Seq` for one-dimensional data) and every operation
//! is specified against that model.
//!
//! # Validity
//!
//! The views are plain data: a buffer and a [`Layout`] or a [`Strided`].
//! A value is valid (`wf`) where its layout lies inside its buffer. Every
//! constructor hands out valid values, every operation keeps them valid, and
//! `is_wf` tests at run time a value that was put together by hand.
//!
//! # Laws
//!
//! Beside the contracts of the functions, the library proves what holds
//! across them:
//!
//! - reading a sub-view reads the view it was cut from
//!   ([`Grid::law_sub_at`], [`Grid::law_sub_sub`]);
//! - transposing twice changes nothing ([`Grid::law_transpose_involution`],
//!   [`trans::law_double_transpose`]);
//! - going through rows, columns or elements from the back gives them in
//!   reverse (`law_reverse_mirrors` of [`Rows`], [`Cols`] and [`Items`]);
//! - two rectangles touch a common place in the buffer exactly where they
//!   have a cell in common ([`Layout::law_disjoint_rects`],
//!   [`Layout::law_overlapping_rects`]);
//! - the backend, given the arguments that [`blas::dispatch`] derives, reads
//!   each operand as what it is, inside its memory
//!   ([`blas::dispatch::law_matrix_read`],
//!   [`blas::dispatch::law_vector_read`],
//!   [`blas::dispatch::law_gemm_args`]).
//!
//! # Errors
//!
//! A request for something that does not exist (a row, a diagonal, a
//! sub-rectangle out of range) is answered with `None`. Operands whose shapes
//! do not go together, and counts that do not fit the index type of the
//! backend, are reported as an [`Error`].

pub mod blas;
pub mod error;
pub mod grid;
pub mod layout;
pub mod mat;
pub mod mutview;
pub mod ops;
pub mod stripes;
pub mod traits;
pub mod trans;
pub mod vector;
pub mod view;

pub use error::Error;
pub use grid::Grid;
pub use layout::{Layout, Strided};
pub use mat::{Cols, Mat, Rows};
pub use mutview::MutView;
pub use trans::Trans;
pub use vector::{Col, Diag, Items, MutSlice, Row, Slice};
pub use view::MatView;
