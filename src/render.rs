use vstd::prelude::*;
use vstd::string::*;

verus! {

/// How a draw call combines with what is already drawn.
#[derive(Copy, Clone, Debug, Eq, PartialEq, Structural)]
pub enum Blend {
    /// No blending: the fragment replaces what is there.
    Opaque,
    Add,
    Alpha,
}

/// Which texture array a draw call samples.
#[derive(Copy, Clone, Eq, PartialEq, Structural, Debug)]
pub enum TextureArraySource {
    Primary,
    UI,
}

/// The size of a texture array: each layer's width and height, and the
/// number of layers.
#[derive(Debug, Copy, Clone, Eq, PartialEq, Structural)]
pub struct TextureArrayDimensions {
    pub width: u32,
    pub height: u32,
    pub layers: u32,
}

/// The files of a vertex and a fragment shader.
#[derive(Debug, Eq, PartialEq)]
pub struct ShaderPair {
    pub vertex_path: String,
    pub fragment_path: String,
}

/// The sources of a vertex and a fragment shader.
pub struct ShaderData {
    pub vertex_data: Vec<u8>,
    pub fragment_data: Vec<u8>,
}

/// Whether `child` is a suffix of `path`, whole path components only.
pub uninterp spec fn path_suffix(path: Seq<char>, child: Seq<char>) -> bool;

/// Relies on `std::path::Path::ends_with`: whether `child` is a suffix of
/// `path`, whole components only; the answer depends on the two paths alone.
/// Every path is a suffix of itself.
#[verifier::external_body]
fn path_ends_with(path: &str, child: &str) -> (r: bool)
    ensures
        r == path_suffix(path@, child@),
        path@ == child@ ==> r,
{
    std::path::Path::new(path).ends_with(child)
}

impl ShaderPair {
    /// Whether `path` names one of the two shader files: it ends with the
    /// vertex or the fragment shader's path, component by component.
    pub fn contains(&self, path: &str) -> (r: bool)
        ensures
            r == (path_suffix(path@, self.vertex_path@) || path_suffix(path@, self.fragment_path@)),
            path@ == self.vertex_path@ || path@ == self.fragment_path@ ==> r,
    {
        path_ends_with(path, self.vertex_path.as_str()) || path_ends_with(path, self.fragment_path.as_str())
    }

    /// The pair of the given files.
    pub fn for_paths(vertex_path: &str, fragment_path: &str) -> (r: ShaderPair)
        ensures
            r.vertex_path@ == vertex_path@,
            r.fragment_path@ == fragment_path@,
    {
        ShaderPair {
            vertex_path: String::from_str(vertex_path),
            fragment_path: String::from_str(fragment_path),
        }
    }
}

/// Appends the two triangles of the quad `ts`, given corner by corner around
/// its edge: the four corners, then the first and third again.
pub fn add_quad<T: Copy>(vertices: &mut Vec<T>, ts: [T; 4])
    ensures
        final(vertices)@ == old(vertices)@ + ts@ + seq![ts@[0], ts@[2]],
{
    let mut i: usize = 0;
    while i < 4
        invariant
            i <= 4,
            vertices@ == old(vertices)@ + ts@.take(i as int),
        decreases 4 - i,
    {
        vertices.push(ts[i]);
        assert(ts@.take(i + 1) =~= ts@.take(i as int).push(ts@[i as int]));
        i = i + 1;
    }
    assert(ts@.take(4) =~= ts@);
    vertices.push(ts[0]);
    vertices.push(ts[2]);
    assert(vertices@ =~= old(vertices)@ + ts@ + seq![ts@[0], ts@[2]]);
}

} // verus!
