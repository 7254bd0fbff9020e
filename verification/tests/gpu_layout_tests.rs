use fim::gpu_layout::{get_shader_type_size, BufferElement, BufferLayout, ShaderDataType};

#[test]
fn shader_type_sizes() {
    assert_eq!(get_shader_type_size(ShaderDataType::Float), 4);
    assert_eq!(get_shader_type_size(ShaderDataType::Float2), 8);
    assert_eq!(get_shader_type_size(ShaderDataType::Float3), 12);
    assert_eq!(get_shader_type_size(ShaderDataType::Float4), 16);
    assert_eq!(get_shader_type_size(ShaderDataType::Mat3), 36);
    assert_eq!(get_shader_type_size(ShaderDataType::Mat4), 64);
    assert_eq!(get_shader_type_size(ShaderDataType::Int), 4);
    assert_eq!(get_shader_type_size(ShaderDataType::Int4), 16);
    assert_eq!(get_shader_type_size(ShaderDataType::Bool), 4);
}

#[test]
fn buffer_element_component_counts() {
    assert_eq!(BufferElement::new(ShaderDataType::Float, false).component_count, 1);
    assert_eq!(BufferElement::new(ShaderDataType::Float3, false).component_count, 3);
    assert_eq!(BufferElement::new(ShaderDataType::Int2, true).component_count, 2);
    assert_eq!(BufferElement::new(ShaderDataType::Mat4, false).component_count, 16);
    let e = BufferElement::new(ShaderDataType::Float2, true);
    assert!(e.is_normalized);
    assert_eq!(e.offset, 0);
    assert!(matches!(e.shader_type(), ShaderDataType::Float2));
}

#[test]
fn layout_offsets_are_prefix_sums() {
    let layout = BufferLayout::new(vec![
        BufferElement::new(ShaderDataType::Float2, false),
        BufferElement::new(ShaderDataType::Float3, false),
        BufferElement::new(ShaderDataType::Int, false),
    ]);
    assert_eq!(layout.get_stride(), 24);
    let elems = layout.get_elements();
    assert_eq!(elems[0].offset, 0);
    assert_eq!(elems[1].offset, 8);
    assert_eq!(elems[2].offset, 20);
}

#[test]
fn layout_push_back_recomputes() {
    let mut layout = BufferLayout::new(vec![BufferElement::new(ShaderDataType::Float4, false)]);
    assert_eq!(layout.get_stride(), 16);
    layout.push_back(BufferElement::new(ShaderDataType::Float, false));
    assert_eq!(layout.get_stride(), 20);
    assert_eq!(layout.get_elements()[1].offset, 16);
}

#[test]
fn layout_clear_and_empty() {
    let mut layout = BufferLayout::new(vec![BufferElement::new(ShaderDataType::Float, false)]);
    assert!(!layout.empty());
    layout.clear();
    assert!(layout.empty());
    assert_eq!(layout.get_stride(), 0);
}
