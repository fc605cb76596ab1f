use vstd::prelude::*;

verus! {

/// Bytes in a single-precision float.
pub const FLOAT_BYTES: usize = 4;

/// Bytes in an unsigned integer.
pub const UINT_BYTES: usize = 4;

/// Bytes in a boolean.
pub const BOOL_BYTES: usize = 1;

/// The type of one attribute of a vertex.
#[derive(Debug, Clone, Copy, PartialEq, Eq, Hash, Structural)]
pub enum BufferComponentType {
    Float,
    Float2,
    Float3,
    Float4,
    Int,
    Int2,
    Int3,
    Int4,
    Mat3,
    Mat4,
    Bool,
}

/// Bytes an attribute of type `kind` takes.
pub open spec fn component_size(kind: BufferComponentType) -> nat {
    match kind {
        BufferComponentType::Float => 4,
        BufferComponentType::Float2 => 8,
        BufferComponentType::Float3 => 12,
        BufferComponentType::Float4 => 16,
        BufferComponentType::Int => 4,
        BufferComponentType::Int2 => 8,
        BufferComponentType::Int3 => 12,
        BufferComponentType::Int4 => 16,
        BufferComponentType::Mat3 => 36,
        BufferComponentType::Mat4 => 64,
        BufferComponentType::Bool => 1,
    }
}

/// Elements an attribute of type `kind` counts (a matrix counts its columns).
pub open spec fn component_count(kind: BufferComponentType) -> nat {
    match kind {
        BufferComponentType::Float | BufferComponentType::Int | BufferComponentType::Bool => 1,
        BufferComponentType::Float2 | BufferComponentType::Int2 => 2,
        BufferComponentType::Float3 | BufferComponentType::Int3 | BufferComponentType::Mat3 => 3,
        BufferComponentType::Float4 | BufferComponentType::Int4 | BufferComponentType::Mat4 => 4,
    }
}

fn size_for_component_type(kind: &BufferComponentType) -> (r: usize)
    ensures
        r == component_size(*kind),
{
    match kind {
        BufferComponentType::Float => FLOAT_BYTES,
        BufferComponentType::Float2 => 2 * FLOAT_BYTES,
        BufferComponentType::Float3 => 3 * FLOAT_BYTES,
        BufferComponentType::Float4 => 4 * FLOAT_BYTES,
        BufferComponentType::Int => UINT_BYTES,
        BufferComponentType::Int2 => 2 * UINT_BYTES,
        BufferComponentType::Int3 => 3 * UINT_BYTES,
        BufferComponentType::Int4 => 4 * UINT_BYTES,
        BufferComponentType::Mat3 => 3 * 3 * FLOAT_BYTES,
        BufferComponentType::Mat4 => 4 * 4 * FLOAT_BYTES,
        BufferComponentType::Bool => BOOL_BYTES,
    }
}

fn count_for_component_type(kind: &BufferComponentType) -> (r: usize)
    ensures
        r == component_count(*kind),
{
    match kind {
        BufferComponentType::Float => 1,
        BufferComponentType::Float2 => 2,
        BufferComponentType::Float3 => 3,
        BufferComponentType::Float4 => 4,
        BufferComponentType::Int => 1,
        BufferComponentType::Int2 => 2,
        BufferComponentType::Int3 => 3,
        BufferComponentType::Int4 => 4,
        BufferComponentType::Mat3 => 3,
        BufferComponentType::Mat4 => 4,
        BufferComponentType::Bool => 1,
    }
}

/// One named attribute of a vertex, and where it starts within the vertex.
pub struct BufferComponent {
    name: String,
    kind: BufferComponentType,
    size: usize,
    count: usize,
    offset: usize,
    normalized: bool,
}

impl BufferComponent {
    pub closed spec fn spec_name(&self) -> Seq<char> {
        self.name@
    }

    pub closed spec fn spec_kind(&self) -> BufferComponentType {
        self.kind
    }

    pub closed spec fn spec_size(&self) -> usize {
        self.size
    }

    pub closed spec fn spec_count(&self) -> usize {
        self.count
    }

    pub closed spec fn spec_offset(&self) -> usize {
        self.offset
    }

    pub closed spec fn spec_normalized(&self) -> bool {
        self.normalized
    }

    /// The size and count agree with the kind.
    pub open spec fn wf(&self) -> bool {
        &&& self.spec_size() == component_size(self.spec_kind())
        &&& self.spec_count() == component_count(self.spec_kind())
    }

    /// A component of type `kind`, at offset 0 until a layout places it.
    pub fn new(name: String, kind: BufferComponentType, normalized: bool) -> (r: Self)
        ensures
            r.wf(),
            r.spec_name() == name@,
            r.spec_kind() == kind,
            r.spec_offset() == 0,
            r.spec_normalized() == normalized,
    {
        let size = size_for_component_type(&kind);
        let count = count_for_component_type(&kind);
        BufferComponent { name, kind, size, count, offset: 0, normalized }
    }

    pub fn size(&self) -> (r: &usize)
        ensures
            *r == self.spec_size(),
    {
        &self.size
    }

    pub fn kind(&self) -> (r: &BufferComponentType)
        ensures
            *r == self.spec_kind(),
    {
        &self.kind
    }

    pub fn count(&self) -> (r: &usize)
        ensures
            *r == self.spec_count(),
    {
        &self.count
    }

    pub fn normalized(&self) -> (r: &bool)
        ensures
            *r == self.spec_normalized(),
    {
        &self.normalized
    }

    pub fn offset(&self) -> (r: &usize)
        ensures
            *r == self.spec_offset(),
    {
        &self.offset
    }

    pub fn set_offset(&mut self, offset: usize)
        ensures
            final(self).spec_offset() == offset,
            final(self).spec_name() == old(self).spec_name(),
            final(self).spec_kind() == old(self).spec_kind(),
            final(self).spec_size() == old(self).spec_size(),
            final(self).spec_count() == old(self).spec_count(),
            final(self).spec_normalized() == old(self).spec_normalized(),
    {
        self.offset = offset;
    }
}

/// The bytes the first `n` components take together.
pub open spec fn size_before(components: Seq<BufferComponent>, n: int) -> nat
    decreases n,
{
    if n <= 0 {
        0
    } else {
        size_before(components, n - 1) + components[n - 1].spec_size() as nat
    }
}

/// The components of a vertex, back to back, and the bytes a vertex takes.
pub struct BufferLayout {
    components: Vec<BufferComponent>,
    stride: usize,
}

impl BufferLayout {
    pub closed spec fn spec_components(&self) -> Seq<BufferComponent> {
        self.components@
    }

    pub closed spec fn spec_stride(&self) -> usize {
        self.stride
    }

    /// Places `components` one after another, in order: each starts where the
    /// one before it ends, and the stride is their total size.
    pub fn new(components: Vec<BufferComponent>) -> (r: Self)
        requires
            size_before(components@, components@.len() as int) <= usize::MAX,
        ensures
            r.spec_stride() == size_before(components@, components@.len() as int),
            r.spec_components().len() == components@.len(),
            forall|i: int|
                0 <= i < components@.len() ==> {
                    let placed = #[trigger] r.spec_components()[i];
                    &&& placed.spec_offset() == size_before(components@, i)
                    &&& placed.spec_name() == components@[i].spec_name()
                    &&& placed.spec_kind() == components@[i].spec_kind()
                    &&& placed.spec_size() == components@[i].spec_size()
                    &&& placed.spec_count() == components@[i].spec_count()
                    &&& placed.spec_normalized() == components@[i].spec_normalized()
                },
    {
        let ghost given = components@;
        let mut rest = components;
        let mut placed: Vec<BufferComponent> = Vec::new();
        let mut offset: usize = 0;
        let mut k: usize = 0;
        let count = rest.len();
        proof {
            lemma_size_before_monotone(given, given.len() as int);
        }
        while k < count
            invariant
                k + rest@.len() == given.len(),
                given.len() == count,
                rest@ == given.subrange(k as int, given.len() as int),
                placed@.len() == k,
                offset == size_before(given, k as int),
                size_before(given, given.len() as int) <= usize::MAX,
                forall|a: int, b: int| 0 <= a <= b <= given.len() ==> size_before(given, a) <= size_before(given, b),
                forall|i: int|
                    0 <= i < k ==> {
                        let p = #[trigger] placed@[i];
                        &&& p.spec_offset() == size_before(given, i)
                        &&& p.spec_name() == given[i].spec_name()
                        &&& p.spec_kind() == given[i].spec_kind()
                        &&& p.spec_size() == given[i].spec_size()
                        &&& p.spec_count() == given[i].spec_count()
                        &&& p.spec_normalized() == given[i].spec_normalized()
                    },
            decreases rest@.len(),
        {
            let mut component = rest.remove(0);
            assert(component == given[k as int]);
            assert(rest@ =~= given.subrange(k + 1, given.len() as int));
            component.set_offset(offset);
            let size = *component.size();
            assert(size_before(given, k + 1) == offset + size);
            offset = offset + size;
            placed.push(component);
            k = k + 1;
        }
        BufferLayout { components: placed, stride: offset }
    }

    pub fn stride(&self) -> (r: &usize)
        ensures
            *r == self.spec_stride(),
    {
        &self.stride
    }

    pub fn components(&self) -> (r: &Vec<BufferComponent>)
        ensures
            r@ == self.spec_components(),
    {
        &self.components
    }
}

/// The running size never shrinks.
proof fn lemma_size_before_monotone(components: Seq<BufferComponent>, n: int)
    ensures
        forall|a: int, b: int| 0 <= a <= b <= n ==> size_before(components, a) <= size_before(components, b),
    decreases n,
{
    if n > 0 {
        lemma_size_before_monotone(components, n - 1);
        assert forall|a: int, b: int| 0 <= a <= b <= n implies size_before(components, a) <= size_before(
            components,
            b,
        ) by {
            if b == n && a < n {
                assert(size_before(components, n) == size_before(components, n - 1) + components[n - 1].spec_size());
            }
        }
    }
}

} // verus!
