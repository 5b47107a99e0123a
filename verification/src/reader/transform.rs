use vstd::prelude::*;

use crate::reader::byte_reader::ByteReader;
use crate::reader::error::{Failure, outcome, ErrorView, HeliumError};
use crate::reader::helpers::{mat4d_view, spec_mat4d, spec_string, spec_vec3d, F64Bits, Helper};

verus! {

/// The map from index space to world space of a grid. Its numbers are
/// 64-bit floats, kept as their bit patterns.
#[derive(Debug)]
pub enum Transform {
    Affine { matrix: [[F64Bits; 4]; 4] },
    Scale {
        map_type: String,
        scale: [F64Bits; 3],
        voxel_size: [F64Bits; 3],
        inverse_scale: [F64Bits; 3],
        inverse_scale_squared: [F64Bits; 3],
        inverse_twice_scale: [F64Bits; 3],
    },
    Translation { translation: [F64Bits; 3] },
    ScaleTranslate {
        map_type: String,
        translation: [F64Bits; 3],
        scale: [F64Bits; 3],
        voxel_size: [F64Bits; 3],
        inverse_scale: [F64Bits; 3],
        inverse_scale_squared: [F64Bits; 3],
        inverse_twice_scale: [F64Bits; 3],
    },
    Unitary { matrix: [[F64Bits; 4]; 4] },
}

/// The mathematical value of a [`Transform`]: vectors and matrix rows are
/// sequences.
pub enum TransformView {
    Affine { matrix: Seq<Seq<F64Bits>> },
    Scale {
        map_type: Seq<char>,
        scale: Seq<F64Bits>,
        voxel_size: Seq<F64Bits>,
        inverse_scale: Seq<F64Bits>,
        inverse_scale_squared: Seq<F64Bits>,
        inverse_twice_scale: Seq<F64Bits>,
    },
    Translation { translation: Seq<F64Bits> },
    ScaleTranslate {
        map_type: Seq<char>,
        translation: Seq<F64Bits>,
        scale: Seq<F64Bits>,
        voxel_size: Seq<F64Bits>,
        inverse_scale: Seq<F64Bits>,
        inverse_scale_squared: Seq<F64Bits>,
        inverse_twice_scale: Seq<F64Bits>,
    },
    Unitary { matrix: Seq<Seq<F64Bits>> },
}

impl View for Transform {
    type V = TransformView;

    open spec fn view(&self) -> TransformView {
        match self {
            Transform::Affine { matrix } => TransformView::Affine { matrix: mat4d_view(*matrix) },
            Transform::Scale {
                map_type,
                scale,
                voxel_size,
                inverse_scale,
                inverse_scale_squared,
                inverse_twice_scale,
            } => TransformView::Scale {
                map_type: map_type@,
                scale: scale@,
                voxel_size: voxel_size@,
                inverse_scale: inverse_scale@,
                inverse_scale_squared: inverse_scale_squared@,
                inverse_twice_scale: inverse_twice_scale@,
            },
            Transform::Translation { translation } => TransformView::Translation {
                translation: translation@,
            },
            Transform::ScaleTranslate {
                map_type,
                translation,
                scale,
                voxel_size,
                inverse_scale,
                inverse_scale_squared,
                inverse_twice_scale,
            } => TransformView::ScaleTranslate {
                map_type: map_type@,
                translation: translation@,
                scale: scale@,
                voxel_size: voxel_size@,
                inverse_scale: inverse_scale@,
                inverse_scale_squared: inverse_scale_squared@,
                inverse_twice_scale: inverse_twice_scale@,
            },
            Transform::Unitary { matrix } => TransformView::Unitary { matrix: mat4d_view(*matrix) },
        }
    }
}

/// A transform: the name of its map type, then its numbers, which depend on
/// the map type; other map types are not supported.
pub open spec fn spec_transform(data: Seq<u8>, pos: int) -> Result<(TransformView, int), Failure> {
    match spec_string(data, pos) {
        Ok((map_type, p1)) => if map_type == "AffineMap"@ {
            match spec_mat4d(data, p1) {
                Ok((matrix, q)) => Ok((TransformView::Affine { matrix }, q)),
                Err(e) => Err(e),
            }
        } else if map_type == "UnitaryMap"@ {
            match spec_mat4d(data, p1) {
                Ok((matrix, q)) => Ok((TransformView::Unitary { matrix }, q)),
                Err(e) => Err(e),
            }
        } else if map_type == "ScaleMap"@ || map_type == "UniformScaleMap"@ {
            match spec_vec3d(data, p1) {
                Ok((scale, q1)) => {
                    match spec_vec3d(data, q1) {
                        Ok((voxel_size, q2)) => {
                            match spec_vec3d(data, q2) {
                                Ok((inverse_scale, q3)) => {
                                    match spec_vec3d(data, q3) {
                                        Ok((inverse_scale_squared, q4)) => {
                                            match spec_vec3d(data, q4) {
                                                Ok((inverse_twice_scale, q5)) => {
                                                    Ok((TransformView::Scale { map_type, scale, voxel_size, inverse_scale, inverse_scale_squared, inverse_twice_scale }, q5))
                                                },
                                                Err(e) => Err(e),
                                            }
                                        },
                                        Err(e) => Err(e),
                                    }
                                },
                                Err(e) => Err(e),
                            }
                        },
                        Err(e) => Err(e),
                    }
                },
                Err(e) => Err(e),
            }
        } else if map_type == "TranslationMap"@ {
            match spec_vec3d(data, p1) {
                Ok((translation, q1)) => {
                    Ok((TransformView::Translation { translation }, q1))
                },
                Err(e) => Err(e),
            }
        } else if map_type == "ScaleTranslateMap"@ || map_type == "UniformScaleTranslateMap"@ {
            match spec_vec3d(data, p1) {
                Ok((translation, q1)) => {
                    match spec_vec3d(data, q1) {
                        Ok((scale, q2)) => {
                            match spec_vec3d(data, q2) {
                                Ok((voxel_size, q3)) => {
                                    match spec_vec3d(data, q3) {
                                        Ok((inverse_scale, q4)) => {
                                            match spec_vec3d(data, q4) {
                                                Ok((inverse_scale_squared, q5)) => {
                                                    match spec_vec3d(data, q5) {
                                                        Ok((inverse_twice_scale, q6)) => {
                                                            Ok((TransformView::ScaleTranslate { map_type, translation, scale, voxel_size, inverse_scale, inverse_scale_squared, inverse_twice_scale }, q6))
                                                        },
                                                        Err(e) => Err(e),
                                                    }
                                                },
                                                Err(e) => Err(e),
                                            }
                                        },
                                        Err(e) => Err(e),
                                    }
                                },
                                Err(e) => Err(e),
                            }
                        },
                        Err(e) => Err(e),
                    }
                },
                Err(e) => Err(e),
            }
        } else {
            Err((ErrorView::UnsupportedTransform(map_type), p1))
        },
        Err(e) => Err(e),
    }
}

/// Whether the string holds exactly the characters of `lit`.
fn string_is(s: &String, lit: &str) -> (b: bool)
    ensures
        b == (s@ == lit@),
{
    *s == lit.to_owned()
}

impl Transform {
    /// Reads a transform.
    pub fn read(reader: &mut ByteReader) -> (r: Result<Transform, HeliumError>)
        ensures
            final(reader).bytes == old(reader).bytes,
            outcome(r, spec_transform(old(reader).data(), old(reader).pos as int), final(reader).pos),
    {
        let map_type = match Helper::read_string(reader) {
            Ok(s) => s,
            Err(e) => return Err(e),
        };
        if string_is(&map_type, "AffineMap") {
            let matrix = match Helper::read_mat4d(reader) {
                Ok(m) => m,
                Err(e) => return Err(e),
            };
            Ok(Transform::Affine { matrix })
        } else if string_is(&map_type, "UnitaryMap") {
            let matrix = match Helper::read_mat4d(reader) {
                Ok(m) => m,
                Err(e) => return Err(e),
            };
            Ok(Transform::Unitary { matrix })
        } else if string_is(&map_type, "ScaleMap") || string_is(&map_type, "UniformScaleMap") {
            let scale = match Helper::read_vec3d(reader) {
                Ok(v) => v,
                Err(e) => return Err(e),
            };
            let voxel_size = match Helper::read_vec3d(reader) {
                Ok(v) => v,
                Err(e) => return Err(e),
            };
            let inverse_scale = match Helper::read_vec3d(reader) {
                Ok(v) => v,
                Err(e) => return Err(e),
            };
            let inverse_scale_squared = match Helper::read_vec3d(reader) {
                Ok(v) => v,
                Err(e) => return Err(e),
            };
            let inverse_twice_scale = match Helper::read_vec3d(reader) {
                Ok(v) => v,
                Err(e) => return Err(e),
            };
            Ok(
                Transform::Scale {
                    map_type,
                    scale,
                    voxel_size,
                    inverse_scale,
                    inverse_scale_squared,
                    inverse_twice_scale,
                },
            )
        } else if string_is(&map_type, "TranslationMap") {
            let translation = match Helper::read_vec3d(reader) {
                Ok(v) => v,
                Err(e) => return Err(e),
            };
            Ok(Transform::Translation { translation })
        } else if string_is(&map_type, "ScaleTranslateMap") || string_is(
            &map_type,
            "UniformScaleTranslateMap",
        ) {
            let translation = match Helper::read_vec3d(reader) {
                Ok(v) => v,
                Err(e) => return Err(e),
            };
            let scale = match Helper::read_vec3d(reader) {
                Ok(v) => v,
                Err(e) => return Err(e),
            };
            let voxel_size = match Helper::read_vec3d(reader) {
                Ok(v) => v,
                Err(e) => return Err(e),
            };
            let inverse_scale = match Helper::read_vec3d(reader) {
                Ok(v) => v,
                Err(e) => return Err(e),
            };
            let inverse_scale_squared = match Helper::read_vec3d(reader) {
                Ok(v) => v,
                Err(e) => return Err(e),
            };
            let inverse_twice_scale = match Helper::read_vec3d(reader) {
                Ok(v) => v,
                Err(e) => return Err(e),
            };
            Ok(
                Transform::ScaleTranslate {
                    map_type,
                    translation,
                    scale,
                    voxel_size,
                    inverse_scale,
                    inverse_scale_squared,
                    inverse_twice_scale,
                },
            )
        } else {
            Err(HeliumError::UnsupportedTransform(map_type))
        }
    }
}

} // verus!
