//! The shader-reflection data model: the tree of parameters, types and
//! bindings that a compiled shader program reports about itself.  The
//! traversal in [`crate::traversal`] walks this tree to assign each named
//! field its bind-group position.
//!
//! These are the bare data types; decoding them from a reflection document is
//! the embedding application's concern.

use vstd::prelude::*;

verus! {

/// A whole reflection document: global parameters and entry points.
pub struct Reflection {
    pub parameters: Vec<Parameter>,
    pub entry_points: Vec<EntryPoint>,
}

/// One shader entry point.
pub struct EntryPoint {
    pub name: String,
    pub stage: Stage,
    pub parameters: Vec<Parameter>,
    pub result: Parameter,
    pub bindings: Vec<Binding>,
}

/// The bindings attached to a parameter: reflection reports either a single
/// binding, a list, or both.
pub struct BindingsField {
    pub binding: Option<Binding>,
    pub bindings: Vec<Binding>,
}

impl BindingsField {
    /// All bindings of the field as one list, the single one (if any) last.
    pub fn collect(self) -> (r: Vec<Binding>)
        ensures
            r@ == self.bindings@ + (match self.binding {
                Some(b) => seq![b],
                None => Seq::<Binding>::empty(),
            }),
    {
        let mut v = self.bindings;
        if let Some(b) = self.binding {
            v.push(b);
            proof {
                assert(v@ =~= self.bindings@ + seq![b]);
            }
        } else {
            proof {
                assert(v@ =~= self.bindings@ + Seq::<Binding>::empty());
            }
        }
        v
    }
}

/// One reflected parameter: a named slot with optional stage, semantic,
/// bindings and type.
pub struct Parameter {
    pub name: String,
    pub stage: Option<Stage>,
    pub semantic_name: Option<String>,
    pub bindings: BindingsField,
    pub ty: Option<Type>,
}

/// The pipeline stage an entry point or parameter belongs to.
#[derive(Clone, Copy, PartialEq, Eq, Structural, Debug)]
pub enum Stage {
    Vertex,
    Fragment,
}

/// One resource binding reported by reflection.
#[derive(Clone, Copy, PartialEq, Eq, Structural, Debug)]
pub enum Binding {
    VaryingInput { index: u32, count: Option<u32> },
    VaryingOutput { index: u32, count: Option<u32> },
    DescriptorTableSlot { index: u32, count: Option<u32> },
    SubElementRegisterSpace { index: u32, count: Option<u32> },
    Uniform { offset: u32, size: u32, element_stride: Option<u32> },
}

/// A reflected type.
pub enum Type {
    Struct { name: String, fields: Vec<Parameter> },
    Vector { element_count: u32, element_type: Box<Type> },
    Scalar { scalar_type: ScalarType },
    Resource { base_shape: BaseShape, result_type: Box<Type> },
    SamplerState {},
    Matrix { row_count: u32, column_count: u32, element_type: Box<Type> },
    Array { element_count: u32, element_type: Box<Type>, uniform_stride: Option<u32> },
    ParameterBlock {
        element_type: Box<Type>,
        container_var_layout: Option<Box<Parameter>>,
        element_var_layout: Option<Box<Parameter>>,
    },
}

/// A scalar element type.
#[derive(Clone, Copy, PartialEq, Eq, Structural, Debug)]
pub enum ScalarType {
    Float32,
    Float64,
    Int32,
    Uint32,
    Bool,
    Unknown,
}

/// The base shape of a resource type.
#[derive(Clone, Copy, PartialEq, Eq, Structural, Debug)]
pub enum BaseShape {
    Texture2D,
    TextureCube,
    Unknown,
}

} // verus!
