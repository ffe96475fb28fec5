use tracer_core::key::Key;
use tracer_core::representation::{
    BaseShape, Binding, BindingsField, EntryPoint, Parameter, Reflection, ScalarType, Stage, Type,
};
use tracer_core::slang_program::{Error, GroupAssemble, SlangProgram};
use tracer_core::traversal::{Position, PositionMap};

fn no_bindings() -> BindingsField {
    BindingsField { binding: None, bindings: Vec::new() }
}

fn param(name: &str, bindings: Vec<Binding>, ty: Option<Type>) -> Parameter {
    Parameter {
        name: name.to_owned(),
        stage: None,
        semantic_name: None,
        bindings: BindingsField { binding: None, bindings },
        ty,
    }
}

#[test]
fn keys_render_dotted_paths() {
    assert_eq!("albedo".build(), "albedo");
    assert_eq!("params".to_owned().build(), "params");
    assert_eq!("params".chain("albedo").build(), "params.albedo");
    assert_eq!("a".chain("b").chain("c").build(), "a.b.c");
    // A key list prefixes every element with a dot, the first included.
    assert_eq!(vec!["a", "b"].build(), ".a.b");
    // A key slice joins with dots and swallows an empty leading segment.
    assert_eq!((&["a", "b"][..]).build(), "a.b");
    assert_eq!((&["", "b"][..]).build(), "b");
}

#[test]
fn bindings_field_collects_list_before_single() {
    let single = Binding::Uniform { offset: 4, size: 8, element_stride: None };
    let listed = Binding::DescriptorTableSlot { index: 1, count: None };
    let field = BindingsField { binding: Some(single), bindings: vec![listed] };
    assert_eq!(field.collect(), vec![listed, single]);
    assert_eq!(no_bindings().collect(), Vec::new());
}

#[test]
fn position_map_inserts_and_replaces() {
    let mut m = PositionMap::new();
    assert_eq!(m.len(), 0);
    let p1 = Position { bind_group: 0, bind_index: 1, byte_offset: 0 };
    let p2 = Position { bind_group: 2, bind_index: 3, byte_offset: 4 };
    m.insert("a.b".to_owned(), p1);
    m.insert("a.c".to_owned(), p2);
    assert_eq!(m.len(), 2);
    assert_eq!(m.get(&"a.b".to_owned()), Some(p1));
    assert_eq!(m.get(&"a.c".to_owned()), Some(p2));
    assert_eq!(m.get(&"a.d".to_owned()), None);
    // A second insert under the same path replaces, it does not duplicate.
    m.insert("a.b".to_owned(), p2);
    assert_eq!(m.len(), 2);
    assert_eq!(m.get(&"a.b".to_owned()), Some(p2));
    assert_eq!(Position::default(), Position { bind_group: 0, bind_index: 0, byte_offset: 0 });
}

fn sample_reflection() -> Reflection {
    // Global parameters: a texture in group 0, bind 0, and a sampler pushed
    // into group 1, bind 2, by its register space.
    let tex = param(
        "tex",
        vec![Binding::DescriptorTableSlot { index: 0, count: None }],
        Some(Type::Resource {
            base_shape: BaseShape::Texture2D,
            result_type: Box::new(Type::Scalar { scalar_type: ScalarType::Float32 }),
        }),
    );
    let smp = param(
        "smp",
        vec![
            Binding::SubElementRegisterSpace { index: 1, count: None },
            Binding::DescriptorTableSlot { index: 2, count: None },
        ],
        Some(Type::SamplerState {}),
    );
    // One entry point with a struct parameter: the struct and its field both
    // get registered, the field inheriting the struct's position plus its
    // own uniform offset.
    let material = param(
        "material",
        vec![Binding::Uniform { offset: 16, size: 32, element_stride: None }],
        Some(Type::Struct {
            name: "Material".to_owned(),
            fields: vec![param(
                "albedo",
                vec![Binding::Uniform { offset: 4, size: 16, element_stride: None }],
                Some(Type::Vector {
                    element_count: 4,
                    element_type: Box::new(Type::Scalar { scalar_type: ScalarType::Float32 }),
                }),
            )],
        }),
    );
    Reflection {
        parameters: vec![tex, smp],
        entry_points: vec![EntryPoint {
            name: "main".to_owned(),
            stage: Stage::Fragment,
            parameters: vec![material],
            result: param("out", Vec::new(), None),
            bindings: Vec::new(),
        }],
    }
}

#[test]
fn walking_a_reflection_assigns_positions() {
    let program = SlangProgram::new(&sample_reflection());
    assert_eq!(
        program.positions.get(&"params.tex".to_owned()),
        Some(Position { bind_group: 0, bind_index: 0, byte_offset: 0 }),
    );
    // A register space advances the bind group and holds it at 1 or above.
    assert_eq!(
        program.positions.get(&"params.smp".to_owned()),
        Some(Position { bind_group: 1, bind_index: 2, byte_offset: 0 }),
    );
    // The struct itself, under the entry point's name.
    assert_eq!(
        program.positions.get(&"main.material".to_owned()),
        Some(Position { bind_group: 0, bind_index: 0, byte_offset: 16 }),
    );
    // Its field, at the struct's position plus the field's own offset.
    assert_eq!(
        program.positions.get(&"main.material.albedo".to_owned()),
        Some(Position { bind_group: 0, bind_index: 0, byte_offset: 20 }),
    );
    assert_eq!(program.positions.get(&"params.nope".to_owned()), None);
}

#[test]
fn register_space_is_held_at_one() {
    let p = param(
        "x",
        vec![Binding::SubElementRegisterSpace { index: 0, count: None }],
        Some(Type::Scalar { scalar_type: ScalarType::Int32 }),
    );
    let r = Reflection { parameters: vec![p], entry_points: Vec::new() };
    let program = SlangProgram::new(&r);
    assert_eq!(
        program.positions.get(&"params.x".to_owned()),
        Some(Position { bind_group: 1, bind_index: 0, byte_offset: 0 }),
    );
}

#[test]
fn arrays_and_blocks_unwrap_to_their_element() {
    let arr = param(
        "lights",
        Vec::new(),
        Some(Type::Array {
            element_count: 4,
            uniform_stride: None,
            element_type: Box::new(Type::ParameterBlock {
                element_type: Box::new(Type::Matrix {
                    row_count: 4,
                    column_count: 4,
                    element_type: Box::new(Type::Scalar { scalar_type: ScalarType::Float32 }),
                }),
                container_var_layout: None,
                element_var_layout: None,
            }),
        }),
    );
    let r = Reflection { parameters: vec![arr], entry_points: Vec::new() };
    let program = SlangProgram::new(&r);
    // The array and block wrappers fall through to one registration of the
    // parameter's own path.
    assert_eq!(
        program.positions.get(&"params.lights".to_owned()),
        Some(Position { bind_group: 0, bind_index: 0, byte_offset: 0 }),
    );
}

struct Collector;

impl GroupAssemble<u32> for Collector {
    type Out = (usize, Vec<(usize, u32)>);

    fn assemble(&self, group: usize, entries: Vec<(usize, u32)>) -> Self::Out {
        (group, entries)
    }
}

#[test]
fn pipeline_builds_groups_in_ascending_order() {
    let program = SlangProgram::new(&sample_reflection());
    let mut pb = program.new_pipeline::<u32, Collector>();
    pb.group(Collector);
    assert!(pb.entry(&"params".chain("tex"), 7).is_ok());
    assert!(pb.entry(&"params".chain("smp"), 9).is_ok());
    assert!(pb.entry(&"main".chain("material"), 11).is_ok());
    let built = pb.build().unwrap();
    // Group 0 holds the texture and the material (same bind, later entry
    // wins); group 1 holds the sampler.
    assert_eq!(built.len(), 2);
    assert_eq!(built[0], (0, vec![(0, 11)]));
    assert_eq!(built[1], (1, vec![(2, 9)]));
    // The build consumed the groups the program uses, so building again
    // finds them missing.
    assert_eq!(pb.build(), Err(Error::MissingGroup));
}

#[test]
fn pipeline_errors_are_precise() {
    let program = SlangProgram::new(&sample_reflection());

    // Unknown field: nothing registered.
    let mut pb = program.new_pipeline::<u32, Collector>();
    pb.group(Collector);
    assert_eq!(pb.entry(&"params".chain("nope"), 1), Err(Error::UknownField));

    // No assembler set.
    let mut pb = program.new_pipeline::<u32, Collector>();
    assert!(pb.entry(&"params".chain("tex"), 1).is_ok());
    assert_eq!(pb.build(), Err(Error::MissingGroupFunction));

    // Group 1 is used by the program but got no data.
    let mut pb = program.new_pipeline::<u32, Collector>();
    pb.group(Collector);
    assert!(pb.entry(&"params".chain("tex"), 1).is_ok());
    assert_eq!(pb.build(), Err(Error::MissingGroup));
}
