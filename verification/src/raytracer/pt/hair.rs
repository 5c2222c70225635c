//! What a request for a hair material says.

use crate::math;
use crate::math::{vec3_from, Vec3};
use crate::parser::ast;
use crate::parser::ast::{ParamList, ValueView};
use vstd::prelude::*;

verus! {

/// The bits of 0.3, of 1.55, and of the color 0.35, 0.2, 0.06.
pub const ROUGHNESS: u64 = 0x3fd3_3333_3333_3333;

pub const INDEX: u64 = 0x3ff8_cccc_cccc_cccd;

pub const BROWN_X: u64 = 0x3fd6_6666_6666_6666;

pub const BROWN_Y: u64 = 0x3fc9_9999_9999_999a;

pub const BROWN_Z: u64 = 0x3fae_b851_eb85_1eb8;

/// Where the absorption of a fiber comes from: it is given, or is to give a color.
#[derive(Clone, Copy, Debug, PartialEq, Eq, Structural)]
pub enum Absorption {
    Given(Vec3),
    OfColor(Vec3),
}

/// A hair material as it is asked for.
#[derive(Clone, Copy, Debug, PartialEq, Eq, Structural)]
pub struct HairRequest {
    pub absorption: Absorption,
    /// Longitudinal roughness.
    pub beta_m: u64,
    /// Azimuthal roughness.
    pub beta_n: u64,
    /// Index of refraction.
    pub eta: u64,
}

/// A number of a request, or what it is where there is none.
pub open spec fn number_or(
    params: Seq<(Seq<char>, ValueView)>,
    name: Seq<char>,
    default: u64,
) -> u64 {
    match ast::number_param(params, name) {
        Some(v) => v,
        None => default,
    }
}

/// The absorption that is asked for. One number stands for all three; the color counts
/// where no absorption is given.
pub open spec fn absorption_of(params: Seq<(Seq<char>, ValueView)>) -> Absorption {
    match ast::numbers_param(params, "absorption"@) {
        Some(a) => match math::first_three(a) {
            Some(v) => Absorption::Given(v),
            None => Absorption::Given(Vec3::of(a[0], a[0], a[0])),
        },
        None => {
            let color = match ast::numbers_param(params, "color"@) {
                Some(c) => math::first_three(c),
                None => None,
            };
            match color {
                Some(c) => Absorption::OfColor(c),
                None => Absorption::OfColor(Vec3::of(BROWN_X, BROWN_Y, BROWN_Z)),
            }
        },
    }
}

/// The hair material that is asked for.
pub open spec fn hair_of(params: Seq<(Seq<char>, ValueView)>) -> HairRequest {
    HairRequest {
        absorption: absorption_of(params),
        beta_m: number_or(params, "roughness"@, ROUGHNESS),
        beta_n: number_or(params, "azimuthalRoughness"@, ROUGHNESS),
        eta: number_or(params, "ior"@, INDEX),
    }
}

fn find_number(params: &ParamList<'_>, name: &str, default: u64) -> (r: u64)
    ensures
        r == number_or(params@, name@, default),
{
    match params.get_number(name) {
        Some(v) => v,
        None => default,
    }
}

impl HairRequest {
    /// Reads the parameters of a hair material.
    pub fn from_bxdf_params(params: &ParamList<'_>) -> (r: HairRequest)
        requires
            ast::numbers_param(params@, "absorption"@) matches Some(a) ==> a.len() > 0,
        ensures
            r == hair_of(params@),
    {
        let absorption: Absorption = match params.get_numbers("absorption") {
            Some(a) => match vec3_from(a) {
                Some(v) => Absorption::Given(v),
                None => Absorption::Given(Vec3::new(a[0], a[0], a[0])),
            },
            None => {
                let color: Option<Vec3> = match params.get_numbers("color") {
                    Some(c) => vec3_from(c),
                    None => None,
                };
                match color {
                    Some(c) => Absorption::OfColor(c),
                    None => Absorption::OfColor(Vec3::new(BROWN_X, BROWN_Y, BROWN_Z)),
                }
            },
        };
        HairRequest {
            absorption,
            beta_m: find_number(params, "roughness", ROUGHNESS),
            beta_n: find_number(params, "azimuthalRoughness", ROUGHNESS),
            eta: find_number(params, "ior", INDEX),
        }
    }
}

} // verus!
