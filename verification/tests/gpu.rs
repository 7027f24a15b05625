use acpu::gpu::checks::{check_buffer_size, check_pipeline_spec, check_target_size};
use acpu::gpu::command::{err_cmd_buffer, err_encoder};
use acpu::gpu::error::GpuError;
use acpu::gpu::ffi::{
    MTLPixelFormatBGRA8Unorm, MTLPixelFormatDepth32Float, MTLPixelFormatRGBA16Float,
    MTLPixelFormatStencil8,
};
use acpu::gpu::render::encoder::{IndexType, PrimitiveType};
use acpu::gpu::render::pass::{LoadAction, StoreAction};
use acpu::gpu::render::pipeline::{
    BlendFactor, BlendOp, BlendState, ColorAttachmentSpec, CompareFunction, CullMode,
    DepthStencil, RenderPipelineSpec, Winding,
};
use acpu::gpu::render::setup::{pipeline_failure, render_pipeline_setup, RenderPipeline};
use acpu::gpu::render::vertex::{
    VertexAttribute, VertexBufferLayout, VertexDescriptor, VertexFormat, VertexStep,
};

#[test]
fn multiple_color_attachments_spec() {
    let spec = RenderPipelineSpec::colors(&[MTLPixelFormatBGRA8Unorm, MTLPixelFormatRGBA16Float]);
    assert_eq!(spec.color_attachments.len(), 2);
    assert_eq!(spec.color_attachments[0].format, MTLPixelFormatBGRA8Unorm);
    assert_eq!(spec.color_attachments[1].format, MTLPixelFormatRGBA16Float);
}

#[test]
fn error_display_all_variants() {
    let variants: Vec<GpuError> = vec![
        GpuError::DeviceNotFound,
        GpuError::BufferCreationFailed("test".into()),
        GpuError::LibraryCompilationFailed("bad msl".into()),
        GpuError::FunctionNotFound("missing".into()),
        GpuError::PipelineCreationFailed("fail".into()),
        GpuError::CommandBufferError("oops".into()),
        GpuError::EncoderCreationFailed,
        GpuError::QueueCreationFailed,
        GpuError::TextureCreationFailed("tex".into()),
    ];
    for v in &variants {
        let s = v.message();
        assert!(!s.is_empty(), "empty display for {:?}", v);
    }
}

#[test]
fn error_is_error_trait() {
    let e = GpuError::DeviceNotFound;
    assert!(!e.message().is_empty());
}

#[test]
fn error_messages_name_the_failure() {
    assert_eq!(GpuError::DeviceNotFound.message(), "No Metal device found");
    assert_eq!(
        GpuError::BufferCreationFailed("test".into()).message(),
        "Buffer creation failed: test"
    );
    assert_eq!(
        GpuError::LibraryCompilationFailed("bad msl".into()).message(),
        "Shader compilation failed: bad msl"
    );
    assert_eq!(GpuError::FunctionNotFound("f".into()).message(), "Function not found: f");
    assert_eq!(
        GpuError::PipelineCreationFailed("fail".into()).message(),
        "Pipeline creation failed: fail"
    );
    assert_eq!(GpuError::CommandBufferError("oops".into()).message(), "Command buffer error: oops");
    assert_eq!(GpuError::EncoderCreationFailed.message(), "Encoder creation failed");
    assert_eq!(GpuError::QueueCreationFailed.message(), "Command queue creation failed");
    assert_eq!(
        GpuError::TextureCreationFailed("tex".into()).message(),
        "Texture creation failed: tex"
    );
}

#[test]
fn io_error_message_carries_the_io_text() {
    let e: GpuError = std::io::Error::new(std::io::ErrorKind::NotFound, "no such shader").into();
    assert_eq!(e.message(), "IO error: no such shader");
}

#[test]
fn command_errors() {
    assert_eq!(err_cmd_buffer().message(), "Command buffer error: creation failed");
    assert!(matches!(err_encoder(), GpuError::EncoderCreationFailed));
}

#[test]
fn buffer_zero_size_is_refused() {
    assert!(check_buffer_size(1).is_ok());
    match check_buffer_size(0) {
        Err(GpuError::BufferCreationFailed(m)) => assert_eq!(m, "size must be > 0"),
        other => panic!("unexpected {:?}", other),
    }
}

#[test]
fn target_zero_size_is_refused() {
    assert!(check_target_size(1, 1).is_ok());
    for (w, h) in [(0u32, 1u32), (1, 0), (0, 0)] {
        match check_target_size(w, h) {
            Err(GpuError::TextureCreationFailed(m)) => assert_eq!(m, "width/height must be > 0"),
            other => panic!("unexpected {:?}", other),
        }
    }
}

#[test]
fn pipeline_without_color_attachment_is_refused() {
    assert!(check_pipeline_spec(&RenderPipelineSpec::color(MTLPixelFormatBGRA8Unorm)).is_ok());
    let empty = RenderPipelineSpec::colors(&[]);
    match check_pipeline_spec(&empty) {
        Err(GpuError::PipelineCreationFailed(m)) => {
            assert_eq!(m, "at least one color attachment required")
        }
        other => panic!("unexpected {:?}", other),
    }
}

#[test]
fn pipeline_spec_builders() {
    let spec = RenderPipelineSpec::color(MTLPixelFormatBGRA8Unorm)
        .with_depth(MTLPixelFormatDepth32Float)
        .with_stencil(MTLPixelFormatStencil8)
        .with_sample_count(4)
        .with_blend(0, BlendState::alpha_over());
    assert_eq!(spec.color_attachments.len(), 1);
    assert_eq!(spec.color_attachments[0].format, MTLPixelFormatBGRA8Unorm);
    assert_eq!(spec.color_attachments[0].write_mask, 0xF);
    let blend = spec.color_attachments[0].blend.unwrap();
    assert_eq!(blend.src_rgb.code(), BlendFactor::SourceAlpha.code());
    assert_eq!(blend.dst_rgb.code(), BlendFactor::OneMinusSourceAlpha.code());
    assert_eq!(spec.depth_format, Some(MTLPixelFormatDepth32Float));
    assert_eq!(spec.stencil_format, Some(MTLPixelFormatStencil8));
    assert_eq!(spec.sample_count, 4);
    assert!(spec.vertex_descriptor.is_none());
}

#[test]
fn color_attachment_builders() {
    let a = ColorAttachmentSpec::new(MTLPixelFormatRGBA16Float)
        .with_write_mask(0x3)
        .with_blend(BlendState::additive());
    assert_eq!(a.format, MTLPixelFormatRGBA16Float);
    assert_eq!(a.write_mask, 0x3);
    let b = a.blend.unwrap();
    assert_eq!(b.src_rgb.code(), BlendFactor::One.code());
    assert_eq!(b.dst_alpha.code(), BlendFactor::One.code());
    assert_eq!(b.rgb_op.code(), BlendOp::Add.code());
}

#[test]
fn vertex_descriptor_builders() {
    let d = VertexDescriptor::new()
        .with_attribute(VertexAttribute {
            shader_location: 0,
            format: VertexFormat::Float2,
            offset: 0,
            buffer_index: 0,
        })
        .with_attribute(VertexAttribute {
            shader_location: 1,
            format: VertexFormat::UChar4Normalized,
            offset: 8,
            buffer_index: 0,
        })
        .with_layout(VertexBufferLayout {
            buffer_index: 0,
            stride: 12,
            step: VertexStep::PerInstance,
            step_rate: 1,
        });
    assert_eq!(d.attributes.len(), 2);
    assert_eq!(d.attributes[1].offset, 8);
    assert_eq!(d.attributes[0].format.code(), 29);
    assert_eq!(d.layouts.len(), 1);
    assert_eq!(d.layouts[0].stride, 12);
    assert_eq!(d.layouts[0].step.code(), 2);
    let e = VertexDescriptor::default();
    assert!(e.attributes.is_empty() && e.layouts.is_empty());
}

#[test]
fn metal_codes() {
    assert_eq!(IndexType::UInt16.size(), 2);
    assert_eq!(IndexType::UInt32.size(), 4);
    assert_eq!(IndexType::UInt16.code(), 0);
    assert_eq!(IndexType::UInt32.code(), 1);
    assert_eq!(PrimitiveType::Triangle.code(), 3);
    assert_eq!(PrimitiveType::Point.code(), 0);
    assert_eq!(LoadAction::Clear.code(), 2);
    assert_eq!(StoreAction::StoreAndMultisampleResolve.code(), 3);
    assert_eq!(CullMode::NoCull.code(), 0);
    assert_eq!(CullMode::Back.code(), 2);
    assert_eq!(Winding::CounterClockwise.code(), 1);
    assert_eq!(CompareFunction::Always.code(), 7);
    assert_eq!(BlendOp::Max.code(), 4);
}

#[test]
fn depth_stencil_presets() {
    let d = DepthStencil::less_write();
    assert_eq!(d.compare.code(), CompareFunction::Less.code());
    assert!(d.write_enabled);
    let a = DepthStencil::always_no_write();
    assert_eq!(a.compare.code(), CompareFunction::Always.code());
    assert!(!a.write_enabled);
}

#[test]
fn render_pipeline_setup_decisions() {
    let spec = RenderPipelineSpec::colors(&[MTLPixelFormatBGRA8Unorm, MTLPixelFormatRGBA16Float])
        .with_blend(1, BlendState::alpha_over())
        .with_depth(MTLPixelFormatDepth32Float)
        .with_sample_count(4);
    let s = render_pipeline_setup(&spec).unwrap();
    assert_eq!(s.attachments.len(), 2);
    assert_eq!(s.attachments[0].pixel_format, MTLPixelFormatBGRA8Unorm);
    assert_eq!(s.attachments[0].write_mask, 0xF);
    assert!(s.attachments[0].blend.is_none());
    let b = s.attachments[1].blend.unwrap();
    assert_eq!((b.rgb_op, b.src_rgb, b.dst_rgb, b.src_alpha, b.dst_alpha), (0, 4, 5, 1, 5));
    assert_eq!(s.depth_format, Some(MTLPixelFormatDepth32Float));
    assert_eq!(s.stencil_format, None);
    assert_eq!(s.raster_sample_count, Some(4));
    assert!(!s.sets_vertex_descriptor);
    let one = render_pipeline_setup(&RenderPipelineSpec::color(MTLPixelFormatBGRA8Unorm)).unwrap();
    assert_eq!(one.raster_sample_count, None);
    match render_pipeline_setup(&RenderPipelineSpec::colors(&[])) {
        Err(GpuError::PipelineCreationFailed(m)) => assert_eq!(m, "at least one color attachment required"),
        other => panic!("unexpected {:?}", other),
    }
    let p = RenderPipeline::for_spec(&spec);
    assert_eq!((p.color_attachments(), p.sample_count()), (2, 4));
    assert_eq!(pipeline_failure(None).message(), "Pipeline creation failed: unknown error");
    assert_eq!(pipeline_failure(Some("bad".into())).message(), "Pipeline creation failed: bad");
}
