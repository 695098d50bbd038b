use vstd::prelude::*;

use crate::color::Color;
use crate::math::{abs, Point2, POINT_MAX, SCALE};
use crate::texture::{texture_value, Texture};

verus! {

/// An illumination model number outside `0..=7`.
#[derive(Clone, Copy, Debug, PartialEq, Eq, Structural)]
pub struct IllumninationModelParsingError {
    pub invalid_model: u8,
}

impl IllumninationModelParsingError {
    pub fn new(invalid_model: u8) -> (e: IllumninationModelParsingError)
        ensures
            e.invalid_model == invalid_model,
    {
        IllumninationModelParsingError { invalid_model }
    }
}

/// How a material is lit (the numbering of the MTL format).
#[derive(Clone, Copy, Debug, PartialEq, Eq, Structural)]
pub enum IllumninationModel {
    /// 0: the diffuse color, unlit.
    Constant,
    /// 1: Lambertian diffuse shading.
    Diffuse,
    /// 2: diffuse and Blinn-Phong specular shading.
    DiffuseSpecular,
    /// 3: as 2, plus reflection.
    DiffuseSpecularReflective,
    /// 4: as 3, for glass.
    DiffuseSpecularReflectiveGlass,
    /// 5: as 3, with Fresnel reflection.
    DiffuseSpecularFresnel,
    /// 6: as 2, plus reflection and refraction.
    DiffuseSpecularRefracted,
    /// 7: as 6, weighted by Fresnel reflectance.
    DiffuseSpecularRefractedFresnel,
}

pub open spec fn model_number(m: IllumninationModel) -> u8 {
    match m {
        IllumninationModel::Constant => 0,
        IllumninationModel::Diffuse => 1,
        IllumninationModel::DiffuseSpecular => 2,
        IllumninationModel::DiffuseSpecularReflective => 3,
        IllumninationModel::DiffuseSpecularReflectiveGlass => 4,
        IllumninationModel::DiffuseSpecularFresnel => 5,
        IllumninationModel::DiffuseSpecularRefracted => 6,
        IllumninationModel::DiffuseSpecularRefractedFresnel => 7,
    }
}

impl IllumninationModel {
    /// The model with number `value`; an error for a number above 7.
    pub fn try_from(value: u8) -> (r: Result<IllumninationModel, IllumninationModelParsingError>)
        ensures
            value <= 7 <==> r is Ok,
            r matches Ok(m) ==> model_number(m) == value,
            r matches Err(e) ==> e.invalid_model == value,
    {
        match value {
            0 => Ok(IllumninationModel::Constant),
            1 => Ok(IllumninationModel::Diffuse),
            2 => Ok(IllumninationModel::DiffuseSpecular),
            3 => Ok(IllumninationModel::DiffuseSpecularReflective),
            4 => Ok(IllumninationModel::DiffuseSpecularReflectiveGlass),
            5 => Ok(IllumninationModel::DiffuseSpecularFresnel),
            6 => Ok(IllumninationModel::DiffuseSpecularRefracted),
            7 => Ok(IllumninationModel::DiffuseSpecularRefractedFresnel),
            _ => Err(IllumninationModelParsingError::new(value)),
        }
    }
}

/// A surface's colors, each optionally modulated by a texture, its specular
/// exponent, its illumination model, and its reflection coefficient and
/// refractive index (fixed-point, `SCALE` is one).
#[derive(Clone, Copy, Debug)]
pub struct Material {
    pub ambient_color: Color,
    pub ambient_texture: Option<Texture>,
    pub diffuse_color: Color,
    pub diffuse_texture: Option<Texture>,
    pub specular_color: Color,
    pub specular_texture: Option<Texture>,
    pub specular_exponent: u32,
    pub illumination_model: IllumninationModel,
    pub reflection_coefficient: Option<i64>,
    pub refraction_coefficient: Option<i64>,
}

/// Largest refractive index, and largest reflection coefficient (fixed-point).
pub const COEFFICIENT_MAX: i64 = 100000;

/// A color modulated by a texture at `uv`, when there are both.
pub open spec fn textured(c: Color, t: Option<Texture>, uv: Option<Point2>) -> Color {
    match (t, uv) {
        (Some(tx), Some(p)) => {
            let v = texture_value(tx, p);
            Color { r: ((c.r * v.r) / 255) as u8, g: ((c.g * v.g) / 255) as u8, b: ((c.b * v.b) / 255) as u8 }
        },
        _ => c,
    }
}

pub open spec fn uv_ok(uv: Option<Point2>) -> bool {
    uv matches Some(p) ==> abs(p.x as int) <= POINT_MAX && abs(p.y as int) <= POINT_MAX
}

fn modulate(c: Color, t: &Option<Texture>, uv: Option<Point2>) -> (r: Color)
    requires
        uv_ok(uv),
    ensures
        r == textured(c, *t, uv),
{
    match (t, uv) {
        (Some(tx), Some(p)) => c.mul(tx.lookup(&p)),
        _ => c,
    }
}

impl Material {
    pub open spec fn wf(&self) -> bool {
        &&& self.reflection_coefficient matches Some(k) ==> 0 <= k <= COEFFICIENT_MAX
        &&& self.refraction_coefficient matches Some(k) ==> 0 < k <= COEFFICIENT_MAX
    }

    /// A material without textures.
    pub fn new(
        ambient_color: Color,
        diffuse_color: Color,
        specular_color: Color,
        specular_exponent: u32,
        illumination_model: IllumninationModel,
        reflection_coefficient: Option<i64>,
        refraction_coefficient: Option<i64>,
    ) -> (m: Material)
        ensures
            m.ambient_color == ambient_color && m.diffuse_color == diffuse_color
                && m.specular_color == specular_color,
            m.ambient_texture is None && m.diffuse_texture is None && m.specular_texture is None,
            m.specular_exponent == specular_exponent,
            m.illumination_model == illumination_model,
            m.reflection_coefficient == reflection_coefficient,
            m.refraction_coefficient == refraction_coefficient,
    {
        Material {
            ambient_color,
            ambient_texture: None,
            diffuse_color,
            diffuse_texture: None,
            specular_color,
            specular_texture: None,
            specular_exponent,
            illumination_model,
            reflection_coefficient,
            refraction_coefficient,
        }
    }

    /// A material with textures.
    pub fn new_with_textures(
        ambient_color: Color,
        ambient_texture: Option<Texture>,
        diffuse_color: Color,
        diffuse_texture: Option<Texture>,
        specular_color: Color,
        specular_texture: Option<Texture>,
        specular_exponent: u32,
        illumination_model: IllumninationModel,
        reflection_coefficient: Option<i64>,
        refraction_coefficient: Option<i64>,
    ) -> (m: Material)
        ensures
            m.ambient_color == ambient_color && m.diffuse_color == diffuse_color
                && m.specular_color == specular_color,
            m.ambient_texture == ambient_texture && m.diffuse_texture == diffuse_texture
                && m.specular_texture == specular_texture,
            m.specular_exponent == specular_exponent,
            m.illumination_model == illumination_model,
            m.reflection_coefficient == reflection_coefficient,
            m.refraction_coefficient == refraction_coefficient,
    {
        Material {
            ambient_color,
            ambient_texture,
            diffuse_color,
            diffuse_texture,
            specular_color,
            specular_texture,
            specular_exponent,
            illumination_model,
            reflection_coefficient,
            refraction_coefficient,
        }
    }

    /// It has a reflection coefficient and a model that reflects.
    pub fn is_reflective(&self) -> (r: bool)
        ensures
            r == (self.reflection_coefficient is Some && (self.illumination_model
                == IllumninationModel::DiffuseSpecularReflective || self.illumination_model
                == IllumninationModel::DiffuseSpecularReflectiveGlass || self.illumination_model
                == IllumninationModel::DiffuseSpecularRefractedFresnel)),
    {
        self.reflection_coefficient.is_some() && (self.illumination_model
            == IllumninationModel::DiffuseSpecularReflective || self.illumination_model
            == IllumninationModel::DiffuseSpecularReflectiveGlass || self.illumination_model
            == IllumninationModel::DiffuseSpecularRefractedFresnel)
    }

    /// It has a refractive index and a model that refracts.
    pub fn is_refractive(&self) -> (r: bool)
        ensures
            r == (self.refraction_coefficient is Some && (self.illumination_model
                == IllumninationModel::DiffuseSpecularRefracted || self.illumination_model
                == IllumninationModel::DiffuseSpecularRefractedFresnel)),
    {
        self.refraction_coefficient.is_some() && (self.illumination_model
            == IllumninationModel::DiffuseSpecularRefracted || self.illumination_model
            == IllumninationModel::DiffuseSpecularRefractedFresnel)
    }

    /// The ambient color, modulated by the ambient texture at `uv`.
    pub fn ambient_color(&self, uv: Option<Point2>) -> (c: Color)
        requires
            uv_ok(uv),
        ensures
            c == textured(self.ambient_color, self.ambient_texture, uv),
    {
        modulate(self.ambient_color, &self.ambient_texture, uv)
    }

    /// The diffuse color, modulated by the diffuse texture at `uv`.
    pub fn diffuse_color(&self, uv: Option<Point2>) -> (c: Color)
        requires
            uv_ok(uv),
        ensures
            c == textured(self.diffuse_color, self.diffuse_texture, uv),
    {
        modulate(self.diffuse_color, &self.diffuse_texture, uv)
    }

    /// The specular color, modulated by the specular texture at `uv`.
    pub fn specular_color(&self, uv: Option<Point2>) -> (c: Color)
        requires
            uv_ok(uv),
        ensures
            c == textured(self.specular_color, self.specular_texture, uv),
    {
        modulate(self.specular_color, &self.specular_texture, uv)
    }
}

/// The parts of a material read from a material file, before textures are
/// attached.
#[derive(Clone, Copy, Debug)]
pub struct MaterialTemplate {
    pub ambient_color: Color,
    pub diffuse_color: Color,
    pub specular_color: Color,
    pub specular_exponent: u32,
    pub illumination_model: IllumninationModel,
    pub reflection_coefficient: Option<i64>,
    pub refraction_coefficient: Option<i64>,
}

impl MaterialTemplate {
    pub fn new(
        ambient_color: Color,
        diffuse_color: Color,
        specular_color: Color,
        specular_exponent: u32,
        illumination_model: IllumninationModel,
        reflection_coefficient: Option<i64>,
        refraction_coefficient: Option<i64>,
    ) -> (t: MaterialTemplate)
        ensures
            t.ambient_color == ambient_color && t.diffuse_color == diffuse_color
                && t.specular_color == specular_color,
            t.specular_exponent == specular_exponent,
            t.illumination_model == illumination_model,
            t.reflection_coefficient == reflection_coefficient,
            t.refraction_coefficient == refraction_coefficient,
    {
        MaterialTemplate {
            ambient_color,
            diffuse_color,
            specular_color,
            specular_exponent,
            illumination_model,
            reflection_coefficient,
            refraction_coefficient,
        }
    }

    /// The material of this template with the given textures attached.
    pub fn build_material(
        &self,
        ambient_texture: Option<Texture>,
        diffuse_texture: Option<Texture>,
        specular_texture: Option<Texture>,
    ) -> (m: Material)
        ensures
            m.ambient_color == self.ambient_color && m.diffuse_color == self.diffuse_color
                && m.specular_color == self.specular_color,
            m.ambient_texture == ambient_texture && m.diffuse_texture == diffuse_texture
                && m.specular_texture == specular_texture,
            m.specular_exponent == self.specular_exponent,
            m.illumination_model == self.illumination_model,
            m.reflection_coefficient == self.reflection_coefficient,
            m.refraction_coefficient == self.refraction_coefficient,
    {
        Material::new_with_textures(
            self.ambient_color,
            ambient_texture,
            self.diffuse_color,
            diffuse_texture,
            self.specular_color,
            specular_texture,
            self.specular_exponent,
            self.illumination_model,
            self.reflection_coefficient,
            self.refraction_coefficient,
        )
    }
}

} // verus!
