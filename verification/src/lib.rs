//! Escape-time rendering of the Mandelbrot set as a plain-text greyscale
//! image.
//!
//! An image is made in three stages. A mapper takes each pixel of the grid to
//! a point of the plane; the evaluator in [`escape`] counts how many steps of
//! a recurrence the orbit of that point takes before it leaves the escape
//! bound, up to a cap; the assembler in [`assemble`] reduces every count to a
//! grey level and lays the levels out row by row. The encoder in [`pgm`] then
//! turns the grid into the bytes of the file.
//!
//! The library drives the arithmetic but does not hold it. The mapper, the
//! step of the recurrence and the bound test are handed in by the caller as
//! functions, over whatever number type the caller computes in, and every
//! contract is stated over what those functions return. Writing the bytes out
//! is left to the caller as well.

pub mod assemble;
pub mod escape;
pub mod pgm;
