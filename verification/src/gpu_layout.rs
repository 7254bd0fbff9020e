//! Vertex attribute layout bookkeeping.
//!
//! A [`BufferLayout`] describes how vertex attributes are interleaved
//! in a GPU vertex buffer: each element records its shader data type
//! and byte offset, and the layout records the stride, the byte size of
//! one whole vertex.  Offsets are the prefix sums of the element sizes.

use vstd::prelude::*;

verus! {

/// The data types a shader attribute can have.
#[derive(Clone, Copy, PartialEq, Eq, Structural, Debug)]
pub enum ShaderDataType {
    Float,
    Float2,
    Float3,
    Float4,
    Mat3,
    Mat4,
    Int,
    Int2,
    Int3,
    Int4,
    Bool,
}

/// The byte size of a value of the given shader data type (components
/// of four bytes each).
pub open spec fn shader_type_size(t: ShaderDataType) -> int {
    match t {
        ShaderDataType::Float => 4,
        ShaderDataType::Float2 => 8,
        ShaderDataType::Float3 => 12,
        ShaderDataType::Float4 => 16,
        ShaderDataType::Mat3 => 36,
        ShaderDataType::Mat4 => 64,
        ShaderDataType::Int => 4,
        ShaderDataType::Int2 => 8,
        ShaderDataType::Int3 => 12,
        ShaderDataType::Int4 => 16,
        ShaderDataType::Bool => 4,
    }
}

/// The byte size of a value of the given shader data type.
pub fn get_shader_type_size(type_: ShaderDataType) -> (r: usize)
    ensures
        r == shader_type_size(type_),
{
    match type_ {
        ShaderDataType::Float => 4,
        ShaderDataType::Float2 => 4 * 2,
        ShaderDataType::Float3 => 4 * 3,
        ShaderDataType::Float4 => 4 * 4,
        ShaderDataType::Mat3 => 4 * 3 * 3,
        ShaderDataType::Mat4 => 4 * 4 * 4,
        ShaderDataType::Int | ShaderDataType::Bool => 4,
        ShaderDataType::Int2 => 4 * 2,
        ShaderDataType::Int3 => 4 * 3,
        ShaderDataType::Int4 => 4 * 4,
    }
}

/// The number of scalar components of the given shader data type.
pub open spec fn component_count_of(t: ShaderDataType) -> int {
    match t {
        ShaderDataType::Float => 1,
        ShaderDataType::Float2 => 2,
        ShaderDataType::Float3 => 3,
        ShaderDataType::Float4 => 4,
        ShaderDataType::Mat3 => 9,
        ShaderDataType::Mat4 => 16,
        ShaderDataType::Int => 1,
        ShaderDataType::Int2 => 2,
        ShaderDataType::Int3 => 3,
        ShaderDataType::Int4 => 4,
        ShaderDataType::Bool => 1,
    }
}

/// One vertex attribute: its shader data type, component count,
/// normalization flag and byte offset within a vertex.
#[derive(Clone, Copy, PartialEq, Eq, Structural, Debug)]
pub struct BufferElement {
    pub component_count: u32,
    pub shader_type: ShaderDataType,
    pub is_normalized: bool,
    pub offset: usize,
}

impl BufferElement {
    /// An attribute of the given type with offset 0; offsets are
    /// assigned when the element joins a layout.
    pub fn new(type_: ShaderDataType, normalized: bool) -> (r: BufferElement)
        ensures
            r.shader_type == type_,
            r.component_count == component_count_of(type_),
            r.is_normalized == normalized,
            r.offset == 0,
    {
        let component_count: u32 = match type_ {
            ShaderDataType::Float | ShaderDataType::Int | ShaderDataType::Bool => 1,
            ShaderDataType::Float2 | ShaderDataType::Int2 => 2,
            ShaderDataType::Float3 | ShaderDataType::Int3 => 3,
            ShaderDataType::Float4 | ShaderDataType::Int4 => 4,
            ShaderDataType::Mat3 => 9,
            ShaderDataType::Mat4 => 16,
        };
        BufferElement { component_count, shader_type: type_, is_normalized: normalized, offset: 0 }
    }

    /// The element's shader data type.
    pub fn shader_type(&self) -> (r: ShaderDataType)
        ensures
            r == self.shader_type,
    {
        self.shader_type
    }
}

/// The sum of the byte sizes of the first `n` elements' types.
pub open spec fn size_prefix_sum(elements: Seq<BufferElement>, n: int) -> int
    decreases n,
{
    if n <= 0 {
        0
    } else {
        size_prefix_sum(elements, n - 1) + shader_type_size(elements[n - 1].shader_type)
    }
}

/// An interleaved vertex attribute layout: the elements in order, each
/// with its byte offset (the prefix sum of the sizes before it), and
/// the stride (the total byte size of one vertex).
pub struct BufferLayout {
    elements: Vec<BufferElement>,
    stride: usize,
}

impl BufferLayout {
    /// The elements of the layout.
    pub closed spec fn elems(self) -> Seq<BufferElement> {
        self.elements@
    }

    /// The stride of the layout.
    pub closed spec fn stride_spec(self) -> int {
        self.stride as int
    }

    /// The layout is consistent: the stride is the sum of all element
    /// sizes and each element's offset is the sum of the sizes before
    /// it.
    pub open spec fn wf(self) -> bool {
        &&& self.stride_spec() == size_prefix_sum(self.elems(), self.elems().len() as int)
        &&& forall|i: int| 0 <= i < self.elems().len() ==> (#[trigger] self.elems()[i]).offset
            == size_prefix_sum(self.elems(), i)
    }

    /// A layout over the given elements, with offsets and stride
    /// computed.
    pub fn new(elements: Vec<BufferElement>) -> (r: BufferLayout)
        requires
            size_prefix_sum(elements@, elements@.len() as int) <= usize::MAX,
        ensures
            r.wf(),
            r.elems().len() == elements@.len(),
            forall|i: int| 0 <= i < elements@.len() ==> (#[trigger] r.elems()[i]).shader_type
                == elements@[i].shader_type && r.elems()[i].is_normalized
                == elements@[i].is_normalized && r.elems()[i].component_count
                == elements@[i].component_count,
    {
        let mut layout = BufferLayout { elements, stride: 0 };
        layout.calc_stride_and_offsets();
        layout
    }

    /// The stride: the byte size of one whole vertex.
    pub fn get_stride(&self) -> (r: usize)
        ensures
            r == self.stride_spec(),
    {
        self.stride
    }

    /// Appends an element and recomputes offsets and stride.
    pub fn push_back(&mut self, element: BufferElement)
        requires
            size_prefix_sum(old(self).elems().push(element), old(self).elems().len() as int + 1)
                <= usize::MAX,
        ensures
            final(self).wf(),
            final(self).elems().len() == old(self).elems().len() + 1,
            forall|i: int| 0 <= i < final(self).elems().len()
                ==> (#[trigger] final(self).elems()[i]).shader_type == old(self).elems().push(
                element,
            )[i].shader_type,
    {
        proof {
            lemma_size_prefix_sum_types(
                old(self).elems().push(element),
                self.elements@.push(element),
                old(self).elems().len() as int + 1,
            );
        }
        self.elements.push(element);
        self.calc_stride_and_offsets();
    }

    /// Removes every element and resets the stride.
    pub fn clear(&mut self)
        ensures
            final(self).wf(),
            final(self).elems().len() == 0,
            final(self).stride_spec() == 0,
    {
        self.elements.clear();
        self.stride = 0;
    }

    /// Whether the layout has no elements.
    pub fn empty(&self) -> (r: bool)
        ensures
            r == (self.elems().len() == 0),
    {
        self.elements.is_empty()
    }

    /// The elements of the layout.
    pub fn get_elements(&self) -> (r: &Vec<BufferElement>)
        ensures
            r@ == self.elems(),
    {
        &self.elements
    }

    /// Recomputes each element's byte offset as the prefix sum of the
    /// sizes before it, and the stride as the total.
    fn calc_stride_and_offsets(&mut self)
        requires
            size_prefix_sum(old(self).elems(), old(self).elems().len() as int) <= usize::MAX,
        ensures
            final(self).wf(),
            final(self).elems().len() == old(self).elems().len(),
            forall|i: int| 0 <= i < final(self).elems().len()
                ==> (#[trigger] final(self).elems()[i]).shader_type
                == old(self).elems()[i].shader_type && final(self).elems()[i].is_normalized
                == old(self).elems()[i].is_normalized && final(self).elems()[i].component_count
                == old(self).elems()[i].component_count,
    {
        let ghost orig = self.elements@;
        let n = self.elements.len();
        let mut offset: usize = 0;
        let mut i: usize = 0;
        while i < n
            invariant
                n == self.elements@.len(),
                n == orig.len(),
                i <= n,
                size_prefix_sum(orig, n as int) <= usize::MAX,
                offset == size_prefix_sum(self.elements@, i as int),
                offset == size_prefix_sum(orig, i as int),
                forall|q: int| 0 <= q < n ==> (#[trigger] self.elements@[q]).shader_type
                    == orig[q].shader_type && self.elements@[q].is_normalized
                    == orig[q].is_normalized && self.elements@[q].component_count
                    == orig[q].component_count,
                forall|q: int| 0 <= q < i ==> (#[trigger] self.elements@[q]).offset
                    == size_prefix_sum(self.elements@, q),
            decreases n - i,
        {
            let ghost before = self.elements@;
            proof {
                lemma_size_prefix_sum_types(orig, before, i as int + 1);
                lemma_size_prefix_sum_mono(orig, i as int + 1, n as int);
            }
            let size = get_shader_type_size(self.elements[i].shader_type);
            let elem = &mut self.elements[i];
            elem.offset = offset;
            offset = offset + size;
            i = i + 1;
            proof {
                lemma_size_prefix_sum_types(before, self.elements@, n as int);
                assert forall|q: int| 0 <= q < i implies (#[trigger] self.elements@[q]).offset
                    == size_prefix_sum(self.elements@, q) by {
                    lemma_size_prefix_sum_types(before, self.elements@, q);
                };
            }
        }
        self.stride = offset;
        proof {
            lemma_size_prefix_sum_types(orig, self.elements@, n as int);
        }
    }
}

/// Prefix sums only depend on the element types, so sequences that
/// agree on types agree on prefix sums.
pub proof fn lemma_size_prefix_sum_types(a: Seq<BufferElement>, b: Seq<BufferElement>, n: int)
    requires
        forall|i: int| 0 <= i < n ==> 0 <= i < a.len() && 0 <= i < b.len()
            && (#[trigger] a[i]).shader_type == b[i].shader_type,
    ensures
        size_prefix_sum(a, n) == size_prefix_sum(b, n),
    decreases n,
{
    if n > 0 {
        lemma_size_prefix_sum_types(a, b, n - 1);
    }
}

/// Prefix sums are monotone in the prefix length.
pub proof fn lemma_size_prefix_sum_mono(a: Seq<BufferElement>, m: int, n: int)
    requires
        0 <= m <= n,
    ensures
        size_prefix_sum(a, m) <= size_prefix_sum(a, n),
    decreases n - m,
{
    if m < n {
        lemma_size_prefix_sum_mono(a, m, n - 1);
    }
}

} // verus!
