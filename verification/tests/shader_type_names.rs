use lunamisc::shader_types::{
    buffer_field, build_time_consts, compute_fns, const_field, fill_build_consts, parse_buffer, parse_buffers, placeholder, strip_comments,
    type_resolver, uint_consts, StorageType,
};

fn consts() -> Vec<(String, Option<u32>)> {
    vec![("N".to_string(), Some(8)), ("M".to_string(), None), ("N".to_string(), Some(9))]
}

fn resolve(s: &str) -> Option<String> {
    type_resolver(s, &consts())
}

#[test]
fn scalars_map_to_host_scalars() {
    assert_eq!(resolve("f32").as_deref(), Some("f32"));
    assert_eq!(resolve("u32").as_deref(), Some("u32"));
    assert_eq!(resolve("i32").as_deref(), Some("i32"));
    assert_eq!(resolve("NonZeroU32").as_deref(), Some("std::num::NonZeroU32"));
    assert_eq!(resolve("NonZeroI32").as_deref(), Some("std::num::NonZeroI32"));
}

#[test]
fn arrays_take_their_length() {
    assert_eq!(resolve("array<f32, 4>").as_deref(), Some("[f32; 4]"));
    assert_eq!(resolve("array<f32, +007>").as_deref(), Some("[f32; 7]"));
    assert_eq!(resolve("array<u32, N>").as_deref(), Some("[u32; 9]"));
    assert_eq!(resolve("array<u32, M>").as_deref(), Some("[u32]"));
    assert_eq!(resolve("array<u32>").as_deref(), Some("[u32]"));
    assert_eq!(
        resolve("array<vec3<f32>, 2>").as_deref(),
        Some("[gputter::types::AlignedVec3<f32>; 2]")
    );
    assert_eq!(resolve("array<u32, K>"), None);
}

#[test]
fn atomics_vectors_and_matrices() {
    assert_eq!(resolve("atomic<u32>").as_deref(), Some("u32"));
    assert_eq!(resolve("vec4f").as_deref(), Some("gputter::types::AlignedVec4<f32>"));
    assert_eq!(resolve("vec2<i32>").as_deref(), Some("gputter::types::AlignedVec2<i32>"));
    assert_eq!(resolve("mat4x4<f32>").as_deref(), Some("gputter::types::AlignedMatrix4x4<f32>"));
    assert_eq!(resolve("mat3x2u").as_deref(), Some("gputter::types::AlignedMatrix3x2<u32>"));
    assert_eq!(resolve("vec3x"), None);
    assert_eq!(resolve("mat2x2q"), None);
}

#[test]
fn other_names_are_shared() {
    assert_eq!(resolve("Particle").as_deref(), Some("Particle"));
    assert_eq!(resolve("material").as_deref(), Some("material"));
    assert_eq!(resolve("matrix"), None);
}

#[test]
fn buffer_declarations_are_read() {
    let b = parse_buffer(
        " var<storage, read_write> particles : array<Particle>;\nfn main() {}",
        &consts(),
    )
    .unwrap();
    assert_eq!(b.name, "particles");
    assert_eq!(b.host_type, "[Particle]");
    assert_eq!(b.storage, StorageType::Storage { shader_read_only: false });
    let u = parse_buffer("\nvar<uniform> params: vec4f;", &consts()).unwrap();
    assert_eq!(u.name, "params");
    assert_eq!(u.host_type, "gputter::types::AlignedVec4<f32>");
    assert_eq!(u.storage, StorageType::Uniform);
    let r = parse_buffer(" var<storage,read> xs: array<u32, N>;", &consts()).unwrap();
    assert_eq!(r.host_type, "[u32; 9]");
    assert_eq!(r.storage, StorageType::Storage { shader_read_only: true });
}

#[test]
fn malformed_buffer_declarations_are_refused() {
    assert!(parse_buffer(" var<private> x: f32;", &consts()).is_none());
    assert!(parse_buffer(" var<storage, write> x: f32;", &consts()).is_none());
    assert!(parse_buffer(" var<uniform> x: array<u32, K>;", &consts()).is_none());
    assert!(parse_buffer(" let x = 1;", &consts()).is_none());
    assert!(parse_buffer(" var<uniform> x: f32", &consts()).is_none());
}

#[test]
fn every_marked_buffer_is_read() {
    let shader = "const N: u32 = 9;\n#[buffer] var<uniform> params: f32;\n#[buffer] var<storage, read_write> out: array<u32, N>;\n@compute fn main() {}";
    let bs = parse_buffers(shader, &consts()).unwrap();
    assert_eq!(bs.len(), 2);
    assert_eq!(bs[0].name, "params");
    assert_eq!(bs[0].storage, StorageType::Uniform);
    assert_eq!(bs[1].name, "out");
    assert_eq!(bs[1].host_type, "[u32; 9]");
    assert!(parse_buffers("fn main() {}", &consts()).unwrap().is_empty());
    assert!(parse_buffers("#[buffer] var<private> x: f32;", &consts()).is_none());
}

#[test]
fn uint_constants_are_collected() {
    let shader = "const N: u32 = 8;\nconst M : NonZeroU32 = {{M}};\nconst F: f32 = 1.0;\nconst K:u32=3";
    let c = uint_consts(shader).unwrap();
    assert_eq!(
        c,
        vec![("N".to_string(), Some(8)), ("M".to_string(), None), ("K".to_string(), Some(3))]
    );
    assert_eq!(type_resolver("array<f32, N>", &c).as_deref(), Some("[f32; 8]"));
    assert_eq!(type_resolver("array<f32, M>", &c).as_deref(), Some("[f32]"));
    assert!(uint_consts("const X: u32 = abc;").is_none());
    assert!(uint_consts("const X: u32 = 4294967296;").is_none());
    assert_eq!(uint_consts("fn main() {}").unwrap(), vec![]);
}

#[test]
fn line_comments_are_removed() {
    assert_eq!(strip_comments("a // note\nb"), "a \nb");
    assert_eq!(strip_comments("x //\n"), "x \n");
    assert_eq!(strip_comments("// no line break"), "// no line break");
    assert_eq!(strip_comments("a // x\r\nb"), "a // x\r\nb");
    assert_eq!(strip_comments("//a\n//b\nc"), "\n\nc");
}

#[test]
fn compute_functions_are_found() {
    let shader = "@compute @workgroup_size(64, 1, 1)\nfn main(@builtin(global_invocation_id) id: vec3<u32>) {}\n\n@compute @workgroup_size(8)\nfn  step_two (x: u32) {}\nfn helper() {}";
    assert_eq!(compute_fns(shader), vec!["main".to_string(), "step_two".to_string()]);
    assert!(compute_fns("fn main() {}").is_empty());
    assert!(compute_fns("@compute fn").is_empty());
}

#[test]
fn placeholders_stand_in_for_build_time_constants() {
    assert_eq!(placeholder("f32").as_deref(), Some("0.0"));
    assert_eq!(placeholder("u32").as_deref(), Some("0"));
    assert_eq!(placeholder("bool").as_deref(), Some("false"));
    assert_eq!(placeholder("std::num::NonZeroU32").as_deref(), Some("1"));
    assert_eq!(
        placeholder("gputter::types::AlignedVec3<f32>").as_deref(),
        Some("vec3<f32>(0.0, 0.0, 0.0)")
    );
    assert_eq!(placeholder("gputter::types::AlignedVec2<i32>").as_deref(), Some("vec2<i32>(0, 0)"));
    assert_eq!(placeholder("gputter::types::AlignedVec5<f32>"), None);
    assert_eq!(placeholder("Particle"), None);
}

#[test]
fn build_time_constants_are_found() {
    let text = "const SIZE: u32 = {{SIZE}};\nconst SCALE : vec3f = {{SCALE}}; /!/ sub with vec3f(1.0)\nconst FIXED: u32 = 3;\nconst LEN: u32 = {{LEN}}";
    let c = build_time_consts(text, &consts()).unwrap();
    assert_eq!(c.len(), 3);
    assert_eq!(c[0].name, "SIZE");
    assert_eq!(c[0].host_type, "u32");
    assert_eq!(c[0].check_with, None);
    assert_eq!(c[1].name, "SCALE");
    assert_eq!(c[1].host_type, "gputter::types::AlignedVec3<f32>");
    assert_eq!(c[1].check_with.as_deref(), Some("vec3f(1.0)"));
    assert_eq!(c[2].name, "LEN");
    assert!(build_time_consts("const A: vec3x = {{A}};", &consts()).is_none());
    assert!(build_time_consts("const A: array<u32, K> = {{A}};", &consts()).unwrap().is_empty());
    assert!(build_time_consts("constA: u32 = {{A}};", &consts()).unwrap().is_empty());
}

#[test]
fn build_time_constants_are_filled() {
    let text = "const A: u32 = {{A}};\nlet x = vec2<f32>(1.0);\nconst B: f32 = {{B}} /!/ sub with 2.5\nfn f() { }";
    assert_eq!(
        fill_build_consts(text, &consts(), true).as_deref(),
        Some("const A: u32 = 0;\nlet x = vec2<f32>(1.0);\nconst B: f32 = 2.5\nfn f() { }")
    );
    assert_eq!(
        fill_build_consts(text, &consts(), false).as_deref(),
        Some("const A: u32 = {A};\nlet x = vec2<f32>(1.0);\nconst B: f32 = {B}\nfn f() {{ }}")
    );
    assert_eq!(fill_build_consts("const P: Particle = {{P}};", &consts(), true), None);
    assert_eq!(
        fill_build_consts("const P: Particle = {{P}};", &consts(), false).as_deref(),
        Some("const P: Particle = {P};")
    );
}

#[test]
fn host_struct_fields_are_written() {
    let u = parse_buffer(" var<uniform> params: f32;", &consts()).unwrap();
    assert_eq!(
        buffer_field(&u),
        "pub params: gputter::shader::BufferGroupBinding<gputter::buffers::uniform::UniformBuffer<f32>, S>"
    );
    let r = parse_buffer(" var<storage, read> xs: array<u32>;", &consts()).unwrap();
    assert_eq!(
        buffer_field(&r),
        "pub xs: gputter::shader::BufferGroupBinding<gputter::buffers::storage::StorageBuffer<[u32], gputter::buffers::storage::HostHidden, gputter::buffers::storage::ShaderReadOnly>, S>"
    );
    let c = build_time_consts("const SIZE: u32 = {{SIZE}};", &consts()).unwrap();
    assert_eq!(const_field(&c[0]), "pub SIZE: u32");
}
