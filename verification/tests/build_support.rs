use wwama::build_support::{
    join, llama_cpp_candidates, strip_windows_verbatim_prefix, windows_cuda_arch_candidate,
};

#[test]
fn prefers_mainline_candidates() {
    let candidates = llama_cpp_candidates("/workspace/libs/rust/wwama");

    assert_eq!(
        candidates,
        [
            "/workspace/libs/rust/wwama/../../cpp/llama.cpp-mainline",
            "/workspace/libs/rust/wwama/../llama.cpp-mainline",
            "/workspace/libs/rust/wwama/../../cpp/llama.cpp",
            "/workspace/libs/rust/wwama/../llama.cpp",
        ]
    );
}

#[test]
fn strips_windows_verbatim_drive_and_unc_prefixes() {
    assert_eq!(
        strip_windows_verbatim_prefix(r"\\?\C:\src\llama.cpp"),
        r"C:\src\llama.cpp"
    );
    assert_eq!(
        strip_windows_verbatim_prefix(r"\\?\UNC\server\share\llama.cpp"),
        r"\\server\share\llama.cpp"
    );
}

#[test]
fn leaves_ordinary_paths_unchanged() {
    assert_eq!(strip_windows_verbatim_prefix(r"C:\src"), r"C:\src");
    assert_eq!(strip_windows_verbatim_prefix("/usr/lib"), "/usr/lib");
    assert_eq!(strip_windows_verbatim_prefix(r"\\?"), r"\\?");
    assert_eq!(strip_windows_verbatim_prefix(r"\\?\UNC"), r"UNC");
}

#[test]
fn joins_with_one_separator() {
    assert_eq!(join("/a/b", "c"), "/a/b/c");
    assert_eq!(join("/a/b/", "c"), "/a/b/c");
    assert_eq!(join("", "c"), "c");
    assert_eq!(llama_cpp_candidates("x/")[3], "x/../llama.cpp");
}

#[test]
fn selects_cuda_import_directory_for_target_architecture() {
    assert_eq!(
        windows_cuda_arch_candidate("/tmp/cuda/lib", "x86_64").as_deref(),
        Some("/tmp/cuda/lib/x64")
    );
    assert_eq!(
        windows_cuda_arch_candidate("/tmp/cuda/lib", "aarch64").as_deref(),
        Some("/tmp/cuda/lib/arm64")
    );
    assert_eq!(windows_cuda_arch_candidate("/tmp/cuda/lib/x64", "x86_64"), None);
    assert_eq!(windows_cuda_arch_candidate("/tmp/cuda/lib/x64/", "x86_64"), None);
    assert_eq!(windows_cuda_arch_candidate("/tmp/cuda/lib/x64/.", "x86_64"), None);
    assert_eq!(windows_cuda_arch_candidate("/tmp/cuda/lib", "riscv64"), None);
    assert_eq!(
        windows_cuda_arch_candidate("/tmp/cuda/lib/arm64", "x86_64").as_deref(),
        Some("/tmp/cuda/lib/arm64/x64")
    );
    assert_eq!(
        windows_cuda_arch_candidate("/tmp/x64/..", "x86_64").as_deref(),
        Some("/tmp/x64/../x64")
    );
    assert_eq!(windows_cuda_arch_candidate(".", "x86_64").as_deref(), Some("./x64"));
    assert_eq!(windows_cuda_arch_candidate("", "x86_64").as_deref(), Some("x64"));
}
