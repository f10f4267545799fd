//! What the code generators produce, and their errors.
use vstd::prelude::*;

verus! {

/// An error of the C backend.
#[derive(Debug)]
pub struct CBackendError {
    pub message: String,
}

/// The C sources the C backend produces.
pub struct CArtifacts {
    pub runtime_h: String,
    pub module_c: String,
}

/// An error of the LLVM backend.
#[derive(Debug)]
pub struct LlvmBackendError {
    pub message: String,
}

/// What the LLVM backend produces.
pub struct LlvmArtifacts {
    /// LLVM IR text.
    pub llvm_ir: String,
}


/// The C header of the runtime that emitted modules include: fixed-width
/// and 128-bit integer types, the tensor handle, the range check, the
/// built-ins that programs call, and the wrapper that runs a tensor
/// computation on a thread of its own where C11 threads exist.
pub open spec fn runtime_header() -> Seq<char> {
        "#pragma once\n"@
        + "#include <stdint.h>\n"@
        + "#include <stdbool.h>\n"@
        + "#include <stddef.h>\n"@
        + "#include <inttypes.h>\n"@
        + "#include <stdio.h>\n"@
        + "#include <stdlib.h>\n\n"@
        + "// ---- Standard 128-bit Types ----\n"@
        + "#if defined(__SIZEOF_INT128__)\n"@
        + "typedef unsigned __int128 aura_u128_t;\n"@
        + "typedef __int128 aura_i128_t;\n"@
        + "#else\n"@
        + "typedef struct { uint64_t lo; uint64_t hi; } aura_u128_t;\n"@
        + "typedef struct { uint64_t lo; int64_t hi; } aura_i128_t;\n"@
        + "#endif\n\n"@
        + "void aura_io_println(const char* s);\n\n"@
        + "// ---- Aura runtime (prototype) ----\n\n"@
        + "typedef struct Tensor { uint32_t id; } Tensor;\n\n"@
        + "static inline void AURA_RANGE_CHECK_U32(uint32_t v, uint32_t lo, uint32_t hi, const char* what) {\n"@
        + "  if (v < lo || v > hi) {\n"@
        + "    fprintf(stderr, \"Aura range check failed for %s: %u not in [%u..%u]\\n\", what, v, lo, hi);\n"@
        + "    // Fail-fast for prototype runtime\n"@
        + "    fflush(stderr);\n"@
        + "    abort();\n"@
        + "  }\n"@
        + "}\n\n"@
        + "// Builtins used by main.aura\n"@
        + "static inline Tensor io_load_tensor(const char* path) {\n"@
        + "  (void)path;\n"@
        + "  Tensor t; t.id = 42;\n"@
        + "  return t;\n"@
        + "}\n\n"@
        + "static inline void io_display(Tensor t) {\n"@
        + "  printf(\"Tensor{id=%u}\\n\", t.id);\n"@
        + "}\n\n"@
        + "static inline Tensor compute_gradient(Tensor data, uint32_t weight) {\n"@
        + "  Tensor out;\n"@
        + "  out.id = data.id + weight;\n"@
        + "  return out;\n"@
        + "}\n\n"@
        + "// ~> async execution (prototype)\n"@
        + "#if defined(__STDC_NO_THREADS__)\n"@
        + "  #define aura_async_tensor2(fn, a0, a1) (fn((a0), (a1)))\n"@
        + "#else\n"@
        + "  #include <threads.h>\n"@
        + "  typedef struct aura_task_tensor2 {\n"@
        + "    Tensor (*fn)(Tensor, uint32_t);\n"@
        + "    Tensor a0;\n"@
        + "    uint32_t a1;\n"@
        + "    Tensor out;\n"@
        + "  } aura_task_tensor2;\n"@
        + "  static int aura_task_tensor2_entry(void* p) {\n"@
        + "    aura_task_tensor2* t = (aura_task_tensor2*)p;\n"@
        + "    t->out = t->fn(t->a0, t->a1);\n"@
        + "    return 0;\n"@
        + "  }\n"@
        + "  static inline Tensor aura_async_tensor2(Tensor (*fn)(Tensor, uint32_t), Tensor a0, uint32_t a1) {\n"@
        + "    aura_task_tensor2 task;\n"@
        + "    task.fn = fn; task.a0 = a0; task.a1 = a1;\n"@
        + "    thrd_t thr;\n"@
        + "    thrd_create(&thr, aura_task_tensor2_entry, &task);\n"@
        + "    thrd_join(thr, 0);\n"@
        + "    return task.out;\n"@
        + "  }\n"@
        + "#endif\n\n"@
}

/// The runtime header (`emit_runtime_h`).
pub fn emit_runtime_h() -> (r: String)
    ensures
        r@ == runtime_header(),
{
    let mut out = String::new();
    out.append("#pragma once\n");
    out.append("#include <stdint.h>\n");
    out.append("#include <stdbool.h>\n");
    out.append("#include <stddef.h>\n");
    out.append("#include <inttypes.h>\n");
    out.append("#include <stdio.h>\n");
    out.append("#include <stdlib.h>\n\n");
    out.append("// ---- Standard 128-bit Types ----\n");
    out.append("#if defined(__SIZEOF_INT128__)\n");
    out.append("typedef unsigned __int128 aura_u128_t;\n");
    out.append("typedef __int128 aura_i128_t;\n");
    out.append("#else\n");
    out.append("typedef struct { uint64_t lo; uint64_t hi; } aura_u128_t;\n");
    out.append("typedef struct { uint64_t lo; int64_t hi; } aura_i128_t;\n");
    out.append("#endif\n\n");
    out.append("void aura_io_println(const char* s);\n\n");
    out.append("// ---- Aura runtime (prototype) ----\n\n");
    out.append("typedef struct Tensor { uint32_t id; } Tensor;\n\n");
    out.append("static inline void AURA_RANGE_CHECK_U32(uint32_t v, uint32_t lo, uint32_t hi, const char* what) {\n");
    out.append("  if (v < lo || v > hi) {\n");
    out.append("    fprintf(stderr, \"Aura range check failed for %s: %u not in [%u..%u]\\n\", what, v, lo, hi);\n");
    out.append("    // Fail-fast for prototype runtime\n");
    out.append("    fflush(stderr);\n");
    out.append("    abort();\n");
    out.append("  }\n");
    out.append("}\n\n");
    out.append("// Builtins used by main.aura\n");
    out.append("static inline Tensor io_load_tensor(const char* path) {\n");
    out.append("  (void)path;\n");
    out.append("  Tensor t; t.id = 42;\n");
    out.append("  return t;\n");
    out.append("}\n\n");
    out.append("static inline void io_display(Tensor t) {\n");
    out.append("  printf(\"Tensor{id=%u}\\n\", t.id);\n");
    out.append("}\n\n");
    out.append("static inline Tensor compute_gradient(Tensor data, uint32_t weight) {\n");
    out.append("  Tensor out;\n");
    out.append("  out.id = data.id + weight;\n");
    out.append("  return out;\n");
    out.append("}\n\n");
    out.append("// ~> async execution (prototype)\n");
    out.append("#if defined(__STDC_NO_THREADS__)\n");
    out.append("  #define aura_async_tensor2(fn, a0, a1) (fn((a0), (a1)))\n");
    out.append("#else\n");
    out.append("  #include <threads.h>\n");
    out.append("  typedef struct aura_task_tensor2 {\n");
    out.append("    Tensor (*fn)(Tensor, uint32_t);\n");
    out.append("    Tensor a0;\n");
    out.append("    uint32_t a1;\n");
    out.append("    Tensor out;\n");
    out.append("  } aura_task_tensor2;\n");
    out.append("  static int aura_task_tensor2_entry(void* p) {\n");
    out.append("    aura_task_tensor2* t = (aura_task_tensor2*)p;\n");
    out.append("    t->out = t->fn(t->a0, t->a1);\n");
    out.append("    return 0;\n");
    out.append("  }\n");
    out.append("  static inline Tensor aura_async_tensor2(Tensor (*fn)(Tensor, uint32_t), Tensor a0, uint32_t a1) {\n");
    out.append("    aura_task_tensor2 task;\n");
    out.append("    task.fn = fn; task.a0 = a0; task.a1 = a1;\n");
    out.append("    thrd_t thr;\n");
    out.append("    thrd_create(&thr, aura_task_tensor2_entry, &task);\n");
    out.append("    thrd_join(thr, 0);\n");
    out.append("    return task.out;\n");
    out.append("  }\n");
    out.append("#endif\n\n");
    out
}

} // verus!
