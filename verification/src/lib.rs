//! A computational core for mixed probability distributions built from three
//! primitive shapes (point mass, uniform interval, one-sided exponential
//! tail): the flat numeric codec, the O(1) alias sampler, the distribution
//! algebra (convolution, mixing, scaling), closed-form statistics, and a
//! Monte Carlo ruin estimator.

pub mod num;
pub mod dist;
pub mod codec;
pub mod stats;
pub mod algebra;
pub mod alias;
pub mod ruin;

pub use num::Num;
pub use dist::Component;
pub use dist::get_weight;
pub use codec::parse_components;
pub use codec::serialize_components;
pub use stats::{dist_mean, dist_prob_gt, dist_std, dist_variance, total_weight};
pub use algebra::{convolve_distributions, convolve_pair, dist_mix, dist_scale, scale_component};
pub use alias::AliasTable;
pub use ruin::run_monte_carlo;
