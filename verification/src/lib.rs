//! Time evolution of a chain of rigid pendulums coupled through Lagrangian
//! mechanics, computed in verified fixed-point arithmetic.
//!
//! The core builds the mass matrix, centripetal vector and gravity vector of
//! the equations of motion `M * alpha + C + G = 0` at a configuration
//! ([`math`]), solves the dense linear system for the angular accelerations
//! and integrates the state forward with a fixed-step fourth-order explicit
//! Runge-Kutta scheme ([`logic`]).  Scalars are fixed-point numbers
//! ([`fixed`]); every public function states exactly what it returns, and
//! every numeric failure surfaces as a [`fixed::SimError`].

pub mod fixed;

pub mod trig;

pub mod math;

pub mod logic;
