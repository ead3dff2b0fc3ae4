use mcp_nano::embedders::{choose_embedding_device, InferenceDevice};
use mcp_nano::jobs::{clamp_progress, missing_task_end, task_result_end, unknown_task_end};

#[test]
fn inference_device_labels() {
    assert!(!InferenceDevice::Cpu.is_gpu());
    assert!(InferenceDevice::Cuda.is_gpu());
    assert!(InferenceDevice::DirectMl.is_gpu());
    assert_eq!(InferenceDevice::Cuda.label(), "CUDA (GPU)");
    assert_eq!(InferenceDevice::DirectMl.fallback_label(), "CPU (DirectML fallback)");
    assert_eq!(InferenceDevice::Cpu.fallback_label(), "CPU");
}

#[test]
fn cpu_request_overrides_build_device() {
    let (d, label) = choose_embedding_device(Some("CpU"), InferenceDevice::Cuda);
    assert_eq!(d, InferenceDevice::Cpu);
    assert_eq!(label, "CPU");
    let (d, label) = choose_embedding_device(Some("gpu"), InferenceDevice::Cuda);
    assert_eq!(d, InferenceDevice::Cuda);
    assert_eq!(label, "CUDA (GPU)");
    assert_eq!(choose_embedding_device(None, InferenceDevice::Cpu).0, InferenceDevice::Cpu);
}

#[test]
fn job_end_records() {
    assert_eq!(clamp_progress(-4), 0);
    assert_eq!(clamp_progress(140), 100);
    assert_eq!(clamp_progress(42), 42);

    let e = missing_task_end("j1");
    assert_eq!(e.status, "FAILED");
    assert_eq!(e.error.as_deref(), Some("missing task_name"));
    assert_eq!(e.event_name, "job_failed");
    assert_eq!(e.event.percentage, 100);
    assert!(e.file_status.is_none());

    let e = unknown_task_end("j2", "frobnicate");
    assert_eq!(e.error.as_deref(), Some("unknown task: frobnicate"));
    assert_eq!(e.event.job_id, "j2");

    let e = task_result_end("j3", &Ok("done".to_string()));
    assert_eq!(e.status, "FINISHED");
    assert_eq!(e.result.as_deref(), Some("done"));
    assert!(e.full_progress_first);
    assert_eq!(e.event_name, "job_finished");
    assert_eq!(e.file_status.as_deref(), Some("completed"));

    let e = task_result_end("j4", &Err("boom".to_string()));
    assert_eq!(e.status, "FAILED");
    assert_eq!(e.error.as_deref(), Some("boom"));
    assert_eq!(e.file_status.as_deref(), Some("failed"));
}
