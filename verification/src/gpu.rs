//! What lives on the GPU, and which binding of which pass it is put at.

use vstd::prelude::*;

verus! {

/// How the texels of a texture are stored.
#[derive(Copy, Clone, PartialEq, Eq, Debug, Structural)]
pub enum TextureFormat {
    Rgba8Unorm,
    R32Uint,
    Bgra8Unorm,
}

/// What a shader may do with a storage texture.
#[derive(Copy, Clone, PartialEq, Eq, Debug, Structural)]
pub enum StorageAccess {
    ReadOnly,
    WriteOnly,
}

/// What a binding of a bind group layout takes.
#[derive(Copy, Clone, PartialEq, Eq, Debug, Structural)]
pub enum BindingType {
    StorageTexture { access: StorageAccess, format: TextureFormat },
    StorageBuffer { read_only: bool },
    UniformBuffer,
}

/// What a texture may be used for.
#[derive(Copy, Clone, PartialEq, Eq, Debug, Structural)]
pub struct TextureUsages {
    pub copy_src: bool,
    pub copy_dst: bool,
    pub texture_binding: bool,
    pub storage_binding: bool,
    pub render_attachment: bool,
}

/// What a buffer may be used for.
#[derive(Copy, Clone, PartialEq, Eq, Debug, Structural)]
pub struct BufferUsages {
    pub map_read: bool,
    pub copy_src: bool,
    pub copy_dst: bool,
    pub uniform: bool,
    pub storage: bool,
}

/// The buffers.
#[derive(Copy, Clone, PartialEq, Eq, Debug, Structural)]
pub enum BufferId {
    /// The first of the two buffers that the centroids move between.
    FirstCentroids,
    /// The second of the two buffers that the centroids move between.
    SecondCentroids,
    /// Number of pixels of each centroid.
    Counts,
    /// Zero after an iteration that changed nothing.
    ConvergenceTracker,
    /// Where the convergence tracker is copied to, to be read.
    Staging,
    /// State of the mouse.
    Mouse,
}

/// The textures.
#[derive(Copy, Clone, PartialEq, Eq, Debug, Structural)]
pub enum TextureId {
    /// The image.
    Image,
    /// The centroid that each pixel belongs to.
    Assignment,
    /// The picture to show.
    Composite,
}

/// What is put at a binding.
#[derive(Copy, Clone, PartialEq, Eq, Debug, Structural)]
pub enum BindingResource {
    Texture(TextureId),
    Buffer(BufferId),
}

/// The pipelines.
#[derive(Copy, Clone, PartialEq, Eq, Debug, Structural)]
pub enum PipelineId {
    /// Finds the closest centroid of each pixel.
    Assignment,
    /// Moves each centroid to the middle of its pixels.
    Phase2,
    /// Draws the picture to show.
    Composite,
}

/// The shader sources.
#[derive(Copy, Clone, PartialEq, Eq, Debug, Structural)]
pub enum ShaderId {
    Kmeans,
    Composite,
}

/// The shader that a pipeline runs.
pub open spec fn spec_shader(id: PipelineId) -> ShaderId {
    if id == PipelineId::Composite {
        ShaderId::Composite
    } else {
        ShaderId::Kmeans
    }
}

/// The function of the shader that a pipeline runs.
pub open spec fn spec_entry_point(id: PipelineId) -> Seq<char> {
    if id == PipelineId::Phase2 {
        "phase2"@
    } else {
        "main"@
    }
}

/// Value of the shader constant `k`, where the shader has one.
pub open spec fn spec_shader_constant(id: PipelineId, k: u32) -> Option<u32> {
    if spec_shader(id) == ShaderId::Kmeans {
        Some(k)
    } else {
        None
    }
}

/// The surface is drawn to, copied to and may be sampled.
pub open spec fn spec_surface_usages() -> TextureUsages {
    TextureUsages {
        copy_src: false,
        copy_dst: true,
        texture_binding: true,
        storage_binding: false,
        render_attachment: true,
    }
}

/// Format of each texture.
pub open spec fn spec_texture_format(id: TextureId) -> TextureFormat {
    match id {
        TextureId::Image => TextureFormat::Rgba8Unorm,
        TextureId::Assignment => TextureFormat::R32Uint,
        TextureId::Composite => TextureFormat::Bgra8Unorm,
    }
}

/// Every texture is bound as a storage texture; the image is filled and may be read back, the
/// composite is copied from.
pub open spec fn spec_texture_usages(id: TextureId) -> TextureUsages {
    TextureUsages {
        copy_src: id != TextureId::Assignment,
        copy_dst: id == TextureId::Image,
        texture_binding: false,
        storage_binding: true,
        render_attachment: false,
    }
}

/// Sizes in bytes, for `k` centroids: four 64-bit channels for each centroid, a 64-bit counter
/// for each centroid, a 32-bit tracker and its copy, three 32-bit words for the mouse.
pub open spec fn spec_buffer_size(id: BufferId, k: u32) -> int {
    match id {
        BufferId::FirstCentroids | BufferId::SecondCentroids => 32 * k,
        BufferId::Counts => 8 * k,
        BufferId::ConvergenceTracker | BufferId::Staging => 4,
        BufferId::Mouse => 12,
    }
}

/// Every buffer is written to. All but the staging buffer, which is read by the CPU, and the
/// mouse, which is a uniform, are storage buffers. The tracker alone is copied from.
pub open spec fn spec_buffer_usages(id: BufferId) -> BufferUsages {
    BufferUsages {
        map_read: id == BufferId::Staging,
        copy_src: id == BufferId::ConvergenceTracker,
        copy_dst: true,
        uniform: id == BufferId::Mouse,
        storage: id != BufferId::Staging && id != BufferId::Mouse,
    }
}

/// Layout of the k-means passes, binding 0 first.
pub open spec fn spec_kmeans_layout() -> Seq<BindingType> {
    seq![
        BindingType::StorageTexture {
            access: StorageAccess::ReadOnly,
            format: TextureFormat::Rgba8Unorm,
        },
        BindingType::StorageBuffer { read_only: false },
        BindingType::StorageBuffer { read_only: false },
        BindingType::StorageBuffer { read_only: false },
        BindingType::StorageTexture {
            access: StorageAccess::WriteOnly,
            format: TextureFormat::R32Uint,
        },
        BindingType::StorageBuffer { read_only: false },
    ]
}

/// Layout of the composite pass, binding 0 first.
pub open spec fn spec_composite_layout() -> Seq<BindingType> {
    seq![
        BindingType::StorageTexture {
            access: StorageAccess::ReadOnly,
            format: TextureFormat::R32Uint,
        },
        BindingType::StorageBuffer { read_only: true },
        BindingType::StorageTexture {
            access: StorageAccess::WriteOnly,
            format: TextureFormat::Bgra8Unorm,
        },
        BindingType::UniformBuffer,
    ]
}

/// What the k-means passes get with `first` at binding 1 and `second` at binding 2.
pub open spec fn spec_kmeans_bindings(first: BufferId, second: BufferId) -> Seq<BindingResource> {
    seq![
        BindingResource::Texture(TextureId::Image),
        BindingResource::Buffer(first),
        BindingResource::Buffer(second),
        BindingResource::Buffer(BufferId::Counts),
        BindingResource::Texture(TextureId::Assignment),
        BindingResource::Buffer(BufferId::ConvergenceTracker),
    ]
}

/// The two bind groups of the k-means passes, which have the centroid buffers in either order.
pub open spec fn spec_kmeans_group(group: int) -> Seq<BindingResource> {
    if group == 0 {
        spec_kmeans_bindings(BufferId::FirstCentroids, BufferId::SecondCentroids)
    } else {
        spec_kmeans_bindings(BufferId::SecondCentroids, BufferId::FirstCentroids)
    }
}

/// What the composite pass gets.
pub open spec fn spec_composite_group() -> Seq<BindingResource> {
    seq![
        BindingResource::Texture(TextureId::Assignment),
        BindingResource::Buffer(BufferId::SecondCentroids),
        BindingResource::Texture(TextureId::Composite),
        BindingResource::Buffer(BufferId::Mouse),
    ]
}

/// Whether a resource can stand at a binding: it is of the kind that the binding takes, was
/// made for that use, and, if it is a texture, has the binding's format.
pub open spec fn fits(binding: BindingType, resource: BindingResource) -> bool {
    match (binding, resource) {
        (BindingType::StorageTexture { access, format }, BindingResource::Texture(id)) => {
            spec_texture_format(id) == format && spec_texture_usages(id).storage_binding
        },
        (BindingType::StorageBuffer { read_only }, BindingResource::Buffer(id)) => {
            spec_buffer_usages(id).storage
        },
        (BindingType::UniformBuffer, BindingResource::Buffer(id)) => {
            spec_buffer_usages(id).uniform
        },
        _ => false,
    }
}

/// Whether every binding of a layout has a resource that fits it, and there are no others.
pub open spec fn group_fits(layout: Seq<BindingType>, group: Seq<BindingResource>) -> bool {
    &&& layout.len() == group.len()
    &&& forall|i: int| 0 <= i < layout.len() ==> fits(#[trigger] layout[i], group[i])
}

/// Every bind group fits the layout that it is made for.
pub proof fn bind_groups_fit_layouts(group: int)
    ensures
        group_fits(spec_kmeans_layout(), spec_kmeans_group(group)),
        group_fits(spec_composite_layout(), spec_composite_group()),
{
}

/// The two k-means groups differ in nothing but the order of the two centroid buffers.
pub proof fn kmeans_groups_swap_centroids()
    ensures
        spec_kmeans_group(0)[1] == spec_kmeans_group(1)[2],
        spec_kmeans_group(0)[2] == spec_kmeans_group(1)[1],
        spec_kmeans_group(0)[1] != spec_kmeans_group(0)[2],
        forall|i: int|
            0 <= i < 6 && i != 1 && i != 2 ==> #[trigger] spec_kmeans_group(0)[i]
                == spec_kmeans_group(1)[i],
{
}

/// Each number of a k-means group has one resource. The image is at 0 and the assignment at 4;
/// the counts, and no other buffer, are at 3, the tracker, and no other buffer, at 5; group 0
/// reads the first centroids at 1 and fills the second at 2, the other group the other way round.
pub proof fn kmeans_bindings_by_number(
    group: int,
    i: int,
    texture: TextureId,
    buffer: BufferId,
)
    requires
        0 <= i < 6,
    ensures
        spec_kmeans_group(group).len() == 6,
        spec_kmeans_group(group)[i] == BindingResource::Texture(texture) <==> {
            ||| i == 0 && texture == TextureId::Image
            ||| i == 4 && texture == TextureId::Assignment
        },
        spec_kmeans_group(group)[i] == BindingResource::Buffer(buffer) <==> {
            ||| i == 3 && buffer == BufferId::Counts
            ||| i == 5 && buffer == BufferId::ConvergenceTracker
            ||| i == (if group == 0 { 1int } else { 2 }) && buffer == BufferId::FirstCentroids
            ||| i == (if group == 0 { 2int } else { 1 }) && buffer == BufferId::SecondCentroids
        },
{
}

/// What the shaders find at the numbers of a k-means group is of the right size: the two
/// centroid buffers hold 32 bytes for each of the `k` centroids, the counts at 3 hold eight for
/// each, and what is at 5 is the only buffer that is copied from, of the size of the staging
/// buffer that it is copied to.
pub proof fn kmeans_bindings_by_size(group: int, k: u32, i: int, id: BufferId)
    requires
        0 <= i < 6,
        spec_kmeans_group(group)[i] == BindingResource::Buffer(id),
    ensures
        i == 1 || i == 2 ==> spec_buffer_size(id, k) == 32 * k,
        i == 3 ==> spec_buffer_size(id, k) == 8 * k,
        i == 5 ==> spec_buffer_size(id, k) == spec_buffer_size(BufferId::Staging, k),
        i == 5 ==> spec_buffer_size(id, k) == 4,
        i == 5 <==> spec_buffer_usages(id).copy_src,
        spec_buffer_usages(id).storage,
{
}

/// Each number of the composite group has one resource: the assignment at 0, the second
/// centroids at 1, the composite at 2 and the mouse, the only uniform, at 3.
pub proof fn composite_bindings_by_number(i: int, texture: TextureId, buffer: BufferId)
    requires
        0 <= i < 4,
    ensures
        spec_composite_group().len() == 4,
        spec_composite_group()[i] == BindingResource::Texture(texture) <==> {
            ||| i == 0 && texture == TextureId::Assignment
            ||| i == 2 && texture == TextureId::Composite
        },
        spec_composite_group()[i] == BindingResource::Buffer(buffer) <==> {
            ||| i == 1 && buffer == BufferId::SecondCentroids
            ||| i == 3 && buffer == BufferId::Mouse
        },
        spec_buffer_usages(buffer).uniform <==> spec_composite_group()[3]
            == BindingResource::Buffer(buffer),
{
}

/// What each pass may do: k-means reads the image and writes the assignment and its buffers;
/// the composite pass reads the assignment and the centroids, and writes the composite.
pub proof fn layouts_say_who_writes(
    i: int,
    access: StorageAccess,
    format: TextureFormat,
    read_only: bool,
)
    ensures
        spec_kmeans_layout().len() == 6,
        spec_composite_layout().len() == 4,
        0 <= i < 6 ==> {
            &&& spec_kmeans_layout()[i] == (BindingType::StorageTexture { access, format }) <==> {
                ||| i == 0 && access == StorageAccess::ReadOnly && format
                    == spec_texture_format(TextureId::Image)
                ||| i == 4 && access == StorageAccess::WriteOnly && format
                    == spec_texture_format(TextureId::Assignment)
            }
            &&& spec_kmeans_layout()[i] == (BindingType::StorageBuffer { read_only }) <==> (i != 0
                && i != 4 && !read_only)
        },
        0 <= i < 4 ==> {
            &&& spec_composite_layout()[i] == (BindingType::StorageTexture {
                access,
                format,
            }) <==> {
                ||| i == 0 && access == StorageAccess::ReadOnly && format
                    == spec_texture_format(TextureId::Assignment)
                ||| i == 2 && access == StorageAccess::WriteOnly && format
                    == spec_texture_format(TextureId::Composite)
            }
            &&& spec_composite_layout()[i] == (BindingType::StorageBuffer { read_only }) <==> (i
                == 1 && read_only)
            &&& spec_composite_layout()[i] == BindingType::UniformBuffer <==> i == 3
        },
{
}

/// A buffer that is copied whole to another has the other's size, and of all the buffers only
/// the staging buffer can be read back and only the tracker copied from: the one is what the
/// other goes to.
pub proof fn only_the_tracker_is_read_back(from: BufferId, to: BufferId, k: u32)
    requires
        spec_buffer_usages(from).copy_src,
        spec_buffer_usages(to).map_read,
    ensures
        from == BufferId::ConvergenceTracker,
        to == BufferId::Staging,
        spec_buffer_size(from, k) == 4,
        spec_buffer_size(to, k) == 4,
        !spec_buffer_usages(to).storage,
        !spec_buffer_usages(to).uniform,
{
}

/// One more centroid makes the centroid buffers larger by four 64-bit channels and the counts
/// by one 64-bit counter, and nothing else; without centroids they are empty.
pub proof fn buffers_grow_with_k(id: BufferId, k: u32)
    requires
        k < u32::MAX,
    ensures
        spec_buffer_size(id, (k + 1) as u32) - spec_buffer_size(id, k) == match id {
            BufferId::FirstCentroids | BufferId::SecondCentroids => 4 * 8int,
            BufferId::Counts => 8,
            _ => 0,
        },
        id == BufferId::FirstCentroids || id == BufferId::SecondCentroids || id
            == BufferId::Counts ==> spec_buffer_size(id, 0) == 0,
        spec_buffer_size(BufferId::Mouse, k) == 3 * 4,
        spec_buffer_size(BufferId::ConvergenceTracker, k) == 4,
        spec_buffer_size(BufferId::Staging, k) == 4,
{
}

/// Both k-means pipelines, and no other, are made for exactly the number of centroids that the
/// buffers at 1, 2 and 3 of their groups are sized for.
pub proof fn shaders_are_made_for_k(id: PipelineId, k: u32)
    ensures
        id == PipelineId::Composite ==> spec_shader_constant(id, k) is None,
        id != PipelineId::Composite ==> {
            &&& spec_shader_constant(id, k) == Some(k)
            &&& spec_buffer_size(BufferId::FirstCentroids, k) == 32 * spec_shader_constant(
                id,
                k,
            )->0
            &&& spec_buffer_size(BufferId::SecondCentroids, k) == 32 * spec_shader_constant(
                id,
                k,
            )->0
            &&& spec_buffer_size(BufferId::Counts, k) == 8 * spec_shader_constant(id, k)->0
        },
        spec_shader(id) == ShaderId::Composite <==> id == PipelineId::Composite,
        spec_entry_point(id) == "phase2"@ <==> id == PipelineId::Phase2,
        spec_entry_point(id) == "main"@ <==> id != PipelineId::Phase2,
{
    reveal_strlit("main");
    reveal_strlit("phase2");
    assert("main"@.len() != "phase2"@.len());
}

/// Every texture is bound as storage; only the image is filled, and only the composite and the
/// image are copied from; no two have the same format.
pub proof fn textures_by_use(a: TextureId, b: TextureId)
    ensures
        spec_texture_format(a) == spec_texture_format(b) <==> a == b,
        spec_texture_usages(a).storage_binding,
        spec_texture_usages(a).copy_dst <==> a == TextureId::Image,
        spec_texture_usages(a).copy_src <==> a != TextureId::Assignment,
        !spec_texture_usages(a).texture_binding,
        !spec_texture_usages(a).render_attachment,
        spec_texture_format(TextureId::Image) == TextureFormat::Rgba8Unorm,
        spec_texture_format(TextureId::Assignment) == TextureFormat::R32Uint,
        spec_texture_format(TextureId::Composite) == TextureFormat::Bgra8Unorm,
{
}

/// Every transfer is between resources made for it: the buffers can be written to, the tracker
/// can be copied whole to the staging buffer and read there, the image can be filled, and the
/// composite can be copied to the surface.
pub proof fn transfers_are_allowed(id: BufferId, k: u32)
    ensures
        spec_buffer_usages(id).copy_dst,
        spec_buffer_usages(BufferId::ConvergenceTracker).copy_src,
        spec_buffer_usages(BufferId::Staging).map_read,
        spec_buffer_size(BufferId::ConvergenceTracker, k) == spec_buffer_size(
            BufferId::Staging,
            k,
        ),
        spec_texture_usages(TextureId::Image).copy_dst,
        spec_texture_usages(TextureId::Composite).copy_src,
        spec_surface_usages().copy_dst,
{
}

/// The two k-means pipelines come from one shader and are made for the same number of
/// centroids, under different entry points.
pub proof fn kmeans_pipelines_agree(k: u32)
    ensures
        spec_shader(PipelineId::Assignment) == spec_shader(PipelineId::Phase2),
        spec_shader_constant(PipelineId::Assignment, k) == spec_shader_constant(
            PipelineId::Phase2,
            k,
        ),
        spec_entry_point(PipelineId::Assignment) != spec_entry_point(PipelineId::Phase2),
{
    reveal_strlit("main");
    reveal_strlit("phase2");
    assert("main"@.len() != "phase2"@.len());
}

/// Format of a texture.
pub fn texture_format(id: TextureId) -> (format: TextureFormat)
    ensures
        format == spec_texture_format(id),
        id == TextureId::Image <==> format == TextureFormat::Rgba8Unorm,
        id == TextureId::Assignment <==> format == TextureFormat::R32Uint,
        id == TextureId::Composite <==> format == TextureFormat::Bgra8Unorm,
{
    match id {
        TextureId::Image => TextureFormat::Rgba8Unorm,
        TextureId::Assignment => TextureFormat::R32Uint,
        TextureId::Composite => TextureFormat::Bgra8Unorm,
    }
}

/// What a texture is made for.
pub fn texture_usages(id: TextureId) -> (usages: TextureUsages)
    ensures
        usages == spec_texture_usages(id),
        usages.storage_binding,
        !usages.texture_binding,
        !usages.render_attachment,
        usages.copy_src <==> (id == TextureId::Image || id == TextureId::Composite),
        usages.copy_dst <==> id == TextureId::Image,
{
    TextureUsages {
        copy_src: id != TextureId::Assignment,
        copy_dst: id == TextureId::Image,
        texture_binding: false,
        storage_binding: true,
        render_attachment: false,
    }
}

/// What the surface is set up for.
pub fn surface_usages() -> (usages: TextureUsages)
    ensures
        usages == spec_surface_usages(),
        usages.copy_dst,
        usages.texture_binding,
        usages.render_attachment,
        !usages.copy_src,
        !usages.storage_binding,
{
    TextureUsages {
        copy_src: false,
        copy_dst: true,
        texture_binding: true,
        storage_binding: false,
        render_attachment: true,
    }
}

/// Size in bytes of a buffer, for `k` centroids.
pub fn buffer_size(id: BufferId, k: u32) -> (size: u64)
    ensures
        size == spec_buffer_size(id, k),
        id == BufferId::FirstCentroids || id == BufferId::SecondCentroids ==> size == 32 * k,
        id == BufferId::Counts ==> size == 8 * k,
        id == BufferId::ConvergenceTracker || id == BufferId::Staging ==> size == 4,
        id == BufferId::Mouse ==> size == 12,
{
    match id {
        BufferId::FirstCentroids | BufferId::SecondCentroids => 32 * (k as u64),
        BufferId::Counts => 8 * (k as u64),
        BufferId::ConvergenceTracker | BufferId::Staging => 4,
        BufferId::Mouse => 12,
    }
}

/// What a buffer is made for.
pub fn buffer_usages(id: BufferId) -> (usages: BufferUsages)
    ensures
        usages == spec_buffer_usages(id),
        usages.copy_dst,
        usages.map_read <==> id == BufferId::Staging,
        usages.copy_src <==> id == BufferId::ConvergenceTracker,
        usages.uniform <==> id == BufferId::Mouse,
        usages.storage <==> (id == BufferId::FirstCentroids || id == BufferId::SecondCentroids
            || id == BufferId::Counts || id == BufferId::ConvergenceTracker),
{
    BufferUsages {
        map_read: id == BufferId::Staging,
        copy_src: id == BufferId::ConvergenceTracker,
        copy_dst: true,
        uniform: id == BufferId::Mouse,
        storage: id != BufferId::Staging && id != BufferId::Mouse,
    }
}

/// Layout of the k-means passes, binding 0 first.
pub fn kmeans_layout() -> (layout: Vec<BindingType>)
    ensures
        layout@ == spec_kmeans_layout(),
        layout@.len() == 6,
        layout@[0] == (BindingType::StorageTexture {
            access: StorageAccess::ReadOnly,
            format: TextureFormat::Rgba8Unorm,
        }),
        layout@[4] == (BindingType::StorageTexture {
            access: StorageAccess::WriteOnly,
            format: TextureFormat::R32Uint,
        }),
        forall|i: int|
            i == 1 || i == 2 || i == 3 || i == 5 ==> #[trigger] layout@[i]
                == (BindingType::StorageBuffer { read_only: false }),
{
    vec![
        BindingType::StorageTexture {
            access: StorageAccess::ReadOnly,
            format: TextureFormat::Rgba8Unorm,
        },
        BindingType::StorageBuffer { read_only: false },
        BindingType::StorageBuffer { read_only: false },
        BindingType::StorageBuffer { read_only: false },
        BindingType::StorageTexture {
            access: StorageAccess::WriteOnly,
            format: TextureFormat::R32Uint,
        },
        BindingType::StorageBuffer { read_only: false },
    ]
}

/// Layout of the composite pass, binding 0 first.
pub fn composite_layout() -> (layout: Vec<BindingType>)
    ensures
        layout@ == spec_composite_layout(),
        layout@.len() == 4,
        layout@[0] == (BindingType::StorageTexture {
            access: StorageAccess::ReadOnly,
            format: TextureFormat::R32Uint,
        }),
        layout@[1] == (BindingType::StorageBuffer { read_only: true }),
        layout@[2] == (BindingType::StorageTexture {
            access: StorageAccess::WriteOnly,
            format: TextureFormat::Bgra8Unorm,
        }),
        layout@[3] == BindingType::UniformBuffer,
{
    vec![
        BindingType::StorageTexture {
            access: StorageAccess::ReadOnly,
            format: TextureFormat::R32Uint,
        },
        BindingType::StorageBuffer { read_only: true },
        BindingType::StorageTexture {
            access: StorageAccess::WriteOnly,
            format: TextureFormat::Bgra8Unorm,
        },
        BindingType::UniformBuffer,
    ]
}

/// What the k-means passes get with `first` at binding 1 and `second` at binding 2.
fn kmeans_bindings(first: BufferId, second: BufferId) -> (bindings: Vec<BindingResource>)
    ensures
        bindings@ == spec_kmeans_bindings(first, second),
        bindings@.len() == 6,
        bindings@[0] == BindingResource::Texture(TextureId::Image),
        bindings@[1] == BindingResource::Buffer(first),
        bindings@[2] == BindingResource::Buffer(second),
        bindings@[3] == BindingResource::Buffer(BufferId::Counts),
        bindings@[4] == BindingResource::Texture(TextureId::Assignment),
        bindings@[5] == BindingResource::Buffer(BufferId::ConvergenceTracker),
{
    vec![
        BindingResource::Texture(TextureId::Image),
        BindingResource::Buffer(first),
        BindingResource::Buffer(second),
        BindingResource::Buffer(BufferId::Counts),
        BindingResource::Texture(TextureId::Assignment),
        BindingResource::Buffer(BufferId::ConvergenceTracker),
    ]
}

/// The two bind groups of the k-means passes.
pub fn kmeans_groups() -> (groups: (Vec<BindingResource>, Vec<BindingResource>))
    ensures
        groups.0@ == spec_kmeans_group(0),
        groups.1@ == spec_kmeans_group(1),
        groups.0@.len() == 6,
        groups.0@[0] == BindingResource::Texture(TextureId::Image),
        groups.0@[1] == BindingResource::Buffer(BufferId::FirstCentroids),
        groups.0@[2] == BindingResource::Buffer(BufferId::SecondCentroids),
        groups.0@[3] == BindingResource::Buffer(BufferId::Counts),
        groups.0@[4] == BindingResource::Texture(TextureId::Assignment),
        groups.0@[5] == BindingResource::Buffer(BufferId::ConvergenceTracker),
        groups.1@.len() == 6,
        groups.1@[0] == BindingResource::Texture(TextureId::Image),
        groups.1@[1] == BindingResource::Buffer(BufferId::SecondCentroids),
        groups.1@[2] == BindingResource::Buffer(BufferId::FirstCentroids),
        groups.1@[3] == BindingResource::Buffer(BufferId::Counts),
        groups.1@[4] == BindingResource::Texture(TextureId::Assignment),
        groups.1@[5] == BindingResource::Buffer(BufferId::ConvergenceTracker),
{
    (
        kmeans_bindings(BufferId::FirstCentroids, BufferId::SecondCentroids),
        kmeans_bindings(BufferId::SecondCentroids, BufferId::FirstCentroids),
    )
}

/// What the composite pass gets, binding 0 first.
pub fn composite_group() -> (group: Vec<BindingResource>)
    ensures
        group@ == spec_composite_group(),
        group@.len() == 4,
        group@[0] == BindingResource::Texture(TextureId::Assignment),
        group@[1] == BindingResource::Buffer(BufferId::SecondCentroids),
        group@[2] == BindingResource::Texture(TextureId::Composite),
        group@[3] == BindingResource::Buffer(BufferId::Mouse),
{
    vec![
        BindingResource::Texture(TextureId::Assignment),
        BindingResource::Buffer(BufferId::SecondCentroids),
        BindingResource::Texture(TextureId::Composite),
        BindingResource::Buffer(BufferId::Mouse),
    ]
}

/// The shader that a pipeline runs.
pub fn shader(id: PipelineId) -> (shader: ShaderId)
    ensures
        shader == spec_shader(id),
        shader == ShaderId::Composite <==> id == PipelineId::Composite,
{
    match id {
        PipelineId::Assignment | PipelineId::Phase2 => ShaderId::Kmeans,
        PipelineId::Composite => ShaderId::Composite,
    }
}

/// The function of the shader that a pipeline runs.
pub fn entry_point(id: PipelineId) -> (name: &'static str)
    ensures
        name@ == spec_entry_point(id),
        id == PipelineId::Phase2 ==> name@ == "phase2"@,
        id != PipelineId::Phase2 ==> name@ == "main"@,
{
    match id {
        PipelineId::Phase2 => "phase2",
        PipelineId::Assignment | PipelineId::Composite => "main",
    }
}

/// Value of the shader constant `k`, where the shader has one.
pub fn shader_constant(id: PipelineId, k: u32) -> (constant: Option<u32>)
    ensures
        constant == spec_shader_constant(id, k),
        id == PipelineId::Assignment || id == PipelineId::Phase2 ==> constant == Some(k),
        id == PipelineId::Composite ==> constant is None,
{
    match shader(id) {
        ShaderId::Kmeans => Some(k),
        ShaderId::Composite => None,
    }
}

/// Whether the memory that a workgroup shares is zeroed before a pipeline runs.
pub fn zeroes_workgroup_memory(id: PipelineId) -> (zeroes: bool)
    ensures
        zeroes == (id != PipelineId::Phase2),
{
    match id {
        PipelineId::Phase2 => false,
        PipelineId::Assignment | PipelineId::Composite => true,
    }
}

} // verus!
