//! The builder pattern behind concrete SCAD sentences, together with the
//! sentence types this crate defines itself: the `surface()` primitive and
//! the `auto` option values of `resize()`.

use vstd::prelude::*;

use crate::display::ScadDisplay;
use crate::display::ScadOption;
use crate::display::ScadOptionModel;
use crate::display::generate_sentence_repr;
use crate::display::sentence_repr_spec;
use crate::text::quoted_spec;

verus! {

/// The error of building from a builder whose required field is not set.
#[derive(Debug, PartialEq, Eq)]
pub struct ScadBuilderError {
    /// The name of the field that was not set.
    pub missing: String,
}

/// Builders that assemble a SCAD sentence value from optional fields.
pub trait ScadBuilder: Sized {
    /// The type this builder builds.
    type Target;

    /// Whether every required field has been set.
    spec fn buildable(&self) -> bool;

    /// The value this builder builds, meaningful when it is buildable.
    spec fn built(&self) -> Self::Target;

    /// Returns the built value, or an error naming a missing field.
    fn build_scad(&self) -> (r: Result<Self::Target, ScadBuilderError>)
        ensures
            r is Ok <==> self.buildable(),
            r matches Ok(t) ==> t == self.built(),
    ;
}

/// Values that can be built by configuring a fresh builder.
pub trait ScadBuildable: Sized {
    /// The builder for this type.
    type Builder: ScadBuilder<Target = Self>;

    /// The builder with no field set.
    spec fn default_builder() -> Self::Builder;

    /// Returns a fresh builder with no field set.
    fn new_builder() -> (b: Self::Builder)
        ensures
            b == Self::default_builder(),
    ;

    /// Creates a value by configuring a fresh builder with `f` and building
    /// the result; fails exactly when the configured builder still misses a
    /// required field.
    fn build_with<F: FnOnce(Self::Builder) -> Self::Builder>(f: F) -> (r: Option<Self>)
        requires
            call_requires(f, (Self::default_builder(),)),
        ensures
            r matches Some(v) ==> exists|b: Self::Builder|
                call_ensures(f, (Self::default_builder(),), b) && b.buildable() && v == b.built(),
            r is None ==> exists|b: Self::Builder|
                call_ensures(f, (Self::default_builder(),), b) && !b.buildable(),
    {
        let b = f(Self::new_builder());
        match b.build_scad() {
            Ok(v) => Some(v),
            Err(_) => None,
        }
    }
}

/// Every entry of every path is an index below `n_points`.
pub open spec fn paths_in_range(paths: Seq<Seq<usize>>, n_points: usize) -> bool {
    forall|i: int, j: int|
        0 <= i < paths.len() && 0 <= j < paths[i].len() ==> (#[trigger] paths[i][j]) < n_points
}

/// Validates the vertex indices of polygon paths or polyhedron faces:
/// returns the position of the first entry that is not the index of one of
/// the `n_points` points, or nothing when every entry is in range.
#[verifier::loop_isolation(false)]
pub fn validate_path_indices(paths: &Vec<Vec<usize>>, n_points: usize) -> (r: Option<
    (usize, usize),
>)
    ensures
        r is None <==> paths_in_range(paths.deep_view(), n_points),
        r matches Some(p) ==> p.0 < paths.deep_view().len() && p.1 < paths.deep_view()[
            p.0 as int
        ].len() && paths.deep_view()[p.0 as int][p.1 as int] >= n_points,
{
    let ghost dv = paths.deep_view();
    let mut i: usize = 0;
    while i < paths.len()
        invariant
            i <= dv.len(),
            forall|a: int, b: int|
                0 <= a < i && 0 <= b < dv[a].len() ==> (#[trigger] dv[a][b]) < n_points,
        decreases dv.len() - i,
    {
        let row = &paths[i];
        proof {
            assert(dv[i as int] == row.deep_view());
        }
        let mut j: usize = 0;
        while j < row.len()
            invariant
                j <= dv[i as int].len(),
                forall|b: int| 0 <= b < j ==> (#[trigger] dv[i as int][b]) < n_points,
            decreases dv[i as int].len() - j,
        {
            if row[j] >= n_points {
                proof {
                    assert(dv[i as int][j as int] >= n_points);
                    assert(!paths_in_range(dv, n_points));
                }
                return Some((i, j));
            }
            j = j + 1;
        }
        i = i + 1;
    }
    proof {
        assert(paths_in_range(dv, n_points));
    }
    None
}

/// A SCAD object built from heightmap information in an external data or
/// image file: `surface()` in SCAD.
#[derive(Debug, PartialEq, Eq)]
pub struct Surface {
    /// Path of the external file.
    pub file: String,
    /// `center` option in SCAD: whether the object's xy origin lies at its
    /// center rather than at its minimal corner.
    pub center: Option<bool>,
    /// Inverts how color values of imported images translate into heights;
    /// `invert` option in SCAD.
    pub invert: Option<bool>,
    /// `convexity` option in SCAD.
    pub convexity: Option<u64>,
}

impl Clone for Surface {
    fn clone(&self) -> (r: Self)
        ensures
            r == *self,
    {
        Surface {
            file: self.file.clone(),
            center: self.center,
            invert: self.invert,
            convexity: self.convexity,
        }
    }
}

/// The option list of a `surface()` sentence: the file, then whichever of
/// `center`, `invert` and `convexity` are set, in that order.
pub open spec fn surface_options(s: Surface) -> Seq<ScadOptionModel> {
    seq![ScadOptionModel::KeyValue("file"@, quoted_spec(s.file@))] + (match s.center {
        Some(b) => seq![ScadOptionModel::KeyValue("center"@, b.repr_spec())],
        None => Seq::empty(),
    }) + (match s.invert {
        Some(b) => seq![ScadOptionModel::KeyValue("invert"@, b.repr_spec())],
        None => Seq::empty(),
    }) + (match s.convexity {
        Some(c) => seq![ScadOptionModel::KeyValue("convexity"@, c.repr_spec())],
        None => Seq::empty(),
    })
}

impl ScadDisplay for Surface {
    open spec fn repr_spec(&self) -> Seq<char> {
        sentence_repr_spec("surface"@, surface_options(*self))
    }

    fn repr_scad(&self) -> (r: String) {
        let mut opts: Vec<ScadOption> = Vec::new();
        proof {
            reveal_strlit("file");
            reveal_strlit("center");
            reveal_strlit("invert");
            reveal_strlit("convexity");
        }
        opts.push(ScadOption::from_key_value("file", self.file.clone()));
        match self.center {
            Some(b) => opts.push(ScadOption::from_key_value("center", b)),
            None => {},
        }
        match self.invert {
            Some(b) => opts.push(ScadOption::from_key_value("invert", b)),
            None => {},
        }
        match self.convexity {
            Some(c) => opts.push(ScadOption::from_key_value("convexity", c)),
            None => {},
        }
        proof {
            assert(opts@.map_values(|o: ScadOption| o@) =~= surface_options(*self));
        }
        generate_sentence_repr("surface", opts)
    }
}

/// The builder of a [`Surface`]: `file` is required, the rest optional.
#[derive(Debug)]
pub struct SurfaceBuilder {
    /// The `file` field, required for building.
    pub file: Option<String>,
    /// The optional `center` field.
    pub center: Option<bool>,
    /// The optional `invert` field.
    pub invert: Option<bool>,
    /// The optional `convexity` field.
    pub convexity: Option<u64>,
}

impl SurfaceBuilder {
    /// Sets the file path.
    pub fn file(self, value: &str) -> (r: Self)
        ensures
            r.file matches Some(f) && f@ == value@,
            r.center == self.center,
            r.invert == self.invert,
            r.convexity == self.convexity,
    {
        SurfaceBuilder { file: Some(value.to_owned()), ..self }
    }

    /// Sets the `center` option.
    pub fn center(self, value: bool) -> (r: Self)
        ensures
            r.center == Some(value),
            r.file == self.file,
            r.invert == self.invert,
            r.convexity == self.convexity,
    {
        SurfaceBuilder { center: Some(value), ..self }
    }

    /// Sets the `invert` option.
    pub fn invert(self, value: bool) -> (r: Self)
        ensures
            r.invert == Some(value),
            r.file == self.file,
            r.center == self.center,
            r.convexity == self.convexity,
    {
        SurfaceBuilder { invert: Some(value), ..self }
    }

    /// Sets the `convexity` option.
    pub fn convexity(self, value: u64) -> (r: Self)
        ensures
            r.convexity == Some(value),
            r.file == self.file,
            r.center == self.center,
            r.invert == self.invert,
    {
        SurfaceBuilder { convexity: Some(value), ..self }
    }
}

impl ScadBuilder for SurfaceBuilder {
    type Target = Surface;

    open spec fn buildable(&self) -> bool {
        self.file is Some
    }

    open spec fn built(&self) -> Surface {
        Surface {
            file: self.file->0,
            center: self.center,
            invert: self.invert,
            convexity: self.convexity,
        }
    }

    fn build_scad(&self) -> (r: Result<Surface, ScadBuilderError>) {
        match &self.file {
            Some(f) => Ok(
                Surface {
                    file: f.clone(),
                    center: self.center,
                    invert: self.invert,
                    convexity: self.convexity,
                },
            ),
            None => Err(ScadBuilderError { missing: "file".to_owned() }),
        }
    }
}

impl ScadBuildable for Surface {
    type Builder = SurfaceBuilder;

    open spec fn default_builder() -> SurfaceBuilder {
        SurfaceBuilder { file: None, center: None, invert: None, convexity: None }
    }

    fn new_builder() -> (b: SurfaceBuilder) {
        SurfaceBuilder { file: None, center: None, invert: None, convexity: None }
    }
}

/// The `auto` option of a 2D `resize()`: one flag for both axes, or one
/// flag per axis.
#[derive(Copy, Clone, Debug, PartialEq, Eq)]
pub enum ResizeAuto2D {
    /// Same value for both dimensions.
    B(bool),
    /// Values for each dimension.
    V([bool; 2]),
}

impl ScadDisplay for ResizeAuto2D {
    open spec fn repr_spec(&self) -> Seq<char> {
        match self {
            ResizeAuto2D::B(b) => b.repr_spec(),
            ResizeAuto2D::V(a) => seq!['['] + a[0].repr_spec() + seq![',', ' '] + a[1].repr_spec()
                + seq![']'],
        }
    }

    fn repr_scad(&self) -> (r: String) {
        match self {
            ResizeAuto2D::B(b) => b.repr_scad(),
            ResizeAuto2D::V(a) => {
                let mut r = String::new();
                r.push('[');
                r.append(a[0].repr_scad().as_str());
                r.push(',');
                r.push(' ');
                r.append(a[1].repr_scad().as_str());
                r.push(']');
                proof {
                    assert(r@ =~= self.repr_spec());
                }
                r
            },
        }
    }
}

/// The `auto` option of a 3D `resize()`: one flag for all axes, or one
/// flag per axis.
#[derive(Copy, Clone, Debug, PartialEq, Eq)]
pub enum ResizeAuto3D {
    /// Same value for all dimensions.
    B(bool),
    /// Values for each dimension.
    V([bool; 3]),
}

impl ScadDisplay for ResizeAuto3D {
    open spec fn repr_spec(&self) -> Seq<char> {
        match self {
            ResizeAuto3D::B(b) => b.repr_spec(),
            ResizeAuto3D::V(a) => seq!['['] + a[0].repr_spec() + seq![',', ' '] + a[1].repr_spec()
                + seq![',', ' '] + a[2].repr_spec() + seq![']'],
        }
    }

    fn repr_scad(&self) -> (r: String) {
        match self {
            ResizeAuto3D::B(b) => b.repr_scad(),
            ResizeAuto3D::V(a) => {
                let mut r = String::new();
                r.push('[');
                r.append(a[0].repr_scad().as_str());
                r.push(',');
                r.push(' ');
                r.append(a[1].repr_scad().as_str());
                r.push(',');
                r.push(' ');
                r.append(a[2].repr_scad().as_str());
                r.push(']');
                proof {
                    assert(r@ =~= self.repr_spec());
                }
                r
            },
        }
    }
}

} // verus!
