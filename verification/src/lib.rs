//! Fixed-point sRGB colors: conversion between color spaces, Porter-Duff
//! compositing with the W3C blend modes, interpolation, and a parser for
//! CSS-style color text.
//!
//! Every fractional quantity is a [`fixed::Fixed`], a signed number with
//! sixteen fractional bits, so that each result is an exact function of its
//! inputs and every contract is stated over integers.

pub mod arith;
pub mod color;
pub mod fixed;
