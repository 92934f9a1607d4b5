use macbinbundler::action::ToolRun;
use macbinbundler::error::BundleError;
use macbinbundler::helpers::{
    canonicalize_rpath, check_input_file, get_id, get_rpaths, sign_binary, BinType,
};
use macbinbundler::snapshot::{LinkStatus, PathStatus, Snapshot};

const EXECUTABLE_BINARY: &str = "poppler/pdftoppm";
const DYLIB_BINARY_1: &str = "poppler/libs/libassuan.9.dylib";
const DYLIB_BINARY_2: &str = "poppler/libs/libfreetype.6.dylib";
const STATICLIB_BINARY: &str = "libzstd.a";
const INVALID_BINARY: &str = "poppler/libs/libfoobarxyz.dylib";

const PDFTOPPM_LOAD_COMMANDS: &str = "\
/work/test_resources/poppler/pdftoppm:
Load command 0
      cmd LC_SEGMENT_64
  cmdsize 72
  segname __PAGEZERO
   vmaddr 0x0000000000000000
   vmsize 0x0000000100000000
Load command 12
          cmd LC_LOAD_DYLIB
      cmdsize 64
         name @rpath/libpoppler.154.0.0.dylib (offset 24)
   time stamp 2 Thu Jan  1 02:00:02 1970
      current version 154.0.0
compatibility version 154.0.0
Load command 13
          cmd LC_LOAD_DYLIB
      cmdsize 56
         name /usr/lib/libSystem.B.dylib (offset 24)
   time stamp 2 Thu Jan  1 02:00:02 1970
      current version 1351.0.0
compatibility version 1.0.0
Load command 16
          cmd LC_RPATH
      cmdsize 40
         path @loader_path/../lib (offset 12)
Load command 17
          cmd LC_RPATH
      cmdsize 32
         path @loader_path/libs (offset 12)
Load command 18
      cmd LC_FUNCTION_STARTS
  cmdsize 16
  dataoff 115576
 datasize 600
";

const LIBASSUAN_LOAD_COMMANDS: &str = "\
/work/test_resources/poppler/libs/libassuan.9.dylib:
Load command 0
      cmd LC_SEGMENT_64
  cmdsize 472
  segname __TEXT
Load command 4
          cmd LC_ID_DYLIB
      cmdsize 56
         name @rpath/libassuan.9.dylib (offset 24)
   time stamp 1 Thu Jan  1 02:00:01 1970
      current version 10.0.0
compatibility version 10.0.0
Load command 12
          cmd LC_RPATH
      cmdsize 32
         path @loader_path (offset 12)
";

fn _get_resource_path(relative: &str) -> String {
    format!("/work/test_resources/{}", relative)
}

fn present(is_file: bool) -> PathStatus {
    PathStatus { exists: true, is_file, link: LinkStatus::Plain }
}

fn missing() -> PathStatus {
    PathStatus { exists: false, is_file: false, link: LinkStatus::Plain }
}

fn resources() -> Snapshot {
    let mut s = Snapshot::new();
    let exe = _get_resource_path(EXECUTABLE_BINARY);
    let assuan = _get_resource_path(DYLIB_BINARY_1);
    let freetype = _get_resource_path(DYLIB_BINARY_2);
    let zstd = _get_resource_path(STATICLIB_BINARY);
    s.paths.record(exe.clone(), present(true));
    s.paths.record(assuan.clone(), present(true));
    s.paths.record(freetype.clone(), present(true));
    s.paths.record(zstd.clone(), present(true));
    s.paths.record(_get_resource_path(INVALID_BINARY), missing());
    s.paths.record(INVALID_BINARY.to_string(), missing());
    s.paths.record(_get_resource_path("poppler/../lib"), missing());
    s.paths.record(_get_resource_path("poppler/libs"), present(false));
    s.paths.record(_get_resource_path("poppler/libs/."), present(false));
    s.paths.record(_get_resource_path("poppler/libs/libpoppler.154.0.0.dylib"), present(true));
    s.paths.record(_get_resource_path("poppler/libs/./libassuan.9.dylib"), present(true));
    s.load_commands.record(exe.clone(), Some(PDFTOPPM_LOAD_COMMANDS.to_string()));
    s.load_commands.record(assuan.clone(), Some(LIBASSUAN_LOAD_COMMANDS.to_string()));
    s.file_types.record(
        exe.clone(),
        Some(format!("{}: Mach-O 64-bit executable arm64\n", exe)),
    );
    s.file_types.record(
        assuan.clone(),
        Some(format!("{}: Mach-O 64-bit dynamically linked shared library arm64\n", assuan)),
    );
    s.file_types.record(
        freetype.clone(),
        Some(format!("{}: Mach-O 64-bit dynamically linked shared library arm64\n", freetype)),
    );
    s.file_types.record(zstd.clone(), Some(format!("{}: current ar archive random library\n", zstd)));
    s.ids.record(assuan.clone(), Some(format!("{}:\n@rpath/libassuan.9.dylib\n", assuan)));
    s.ids.record(freetype.clone(), Some(format!("{}:\n@rpath/libfreetype.6.dylib\n", freetype)));
    s
}

#[test]
fn test_check_input_file_1() {
    let file = _get_resource_path(EXECUTABLE_BINARY);
    let res = check_input_file(&resources(), &file);
    assert!(res.is_ok());
    assert_eq!(res.unwrap(), BinType::Executable(&file));
}

#[test]
fn test_check_input_file_2() {
    let file = _get_resource_path(DYLIB_BINARY_1);
    let res = check_input_file(&resources(), &file);
    assert!(res.is_ok());
    assert_eq!(res.unwrap(), BinType::Dylib(&file));
}

#[test]
fn test_check_input_file_3() {
    let file = _get_resource_path(STATICLIB_BINARY);
    let res = check_input_file(&resources(), &file);
    assert!(res.is_ok());
    assert_eq!(res.unwrap(), BinType::StaticLib(&file));
}

#[test]
fn test_check_input_file_4() {
    let file = INVALID_BINARY.to_string();
    let res = check_input_file(&resources(), &file);
    assert!(res.is_err());
}

#[test]
fn test_sign_binary_1() {
    let file = _get_resource_path(EXECUTABLE_BINARY);
    let run = ToolRun { succeeded: true, stderr: String::new() };
    let res = sign_binary(&file).outcome(&run);
    assert!(res.is_ok());
}

#[test]
fn test_sign_binary_2() {
    let file = _get_resource_path(DYLIB_BINARY_1);
    let run = ToolRun { succeeded: true, stderr: String::new() };
    let res = sign_binary(&file).outcome(&run);
    assert!(res.is_ok());
}

#[test]
fn test_sign_binary_3() {
    let file = _get_resource_path(INVALID_BINARY);
    let run = ToolRun {
        succeeded: false,
        stderr: format!("{}: No such file or directory\n", file),
    };
    let res = sign_binary(&file).outcome(&run);
    assert!(res.is_err());
    assert_eq!(res, Err(BundleError::Signing(file)));
}

#[test]
fn test_get_rpats_1() {
    let file = _get_resource_path(EXECUTABLE_BINARY);
    let mut expected: Vec<String> = Vec::new();
    expected.push("../lib".to_string());
    expected.push("libs".to_string());
    let res = get_rpaths(&resources(), &file, false);
    assert!(res.is_ok());
    assert_eq!(res.unwrap(), expected);
}

#[test]
fn test_get_rpats_2() {
    let file = _get_resource_path(EXECUTABLE_BINARY);
    let mut expected: Vec<String> = Vec::new();
    expected.push("@loader_path/../lib".to_string());
    expected.push("@loader_path/libs".to_string());
    let res = get_rpaths(&resources(), &file, true);
    assert!(res.is_ok());
    assert_eq!(res.unwrap(), expected);
}

#[test]
fn test_get_rpats_3() {
    let file = _get_resource_path(DYLIB_BINARY_1);
    let mut expected: Vec<String> = Vec::new();
    expected.push("@loader_path".to_string());
    let res = get_rpaths(&resources(), &file, true);
    assert!(res.is_ok());
    assert_eq!(res.unwrap(), expected);
}

#[test]
fn test_canonicalize_rpath_1() {
    let file = _get_resource_path(EXECUTABLE_BINARY);
    let rpath_install_name = "@rpath/libpoppler.154.0.0.dylib";
    let expected = _get_resource_path("poppler/libs/libpoppler.154.0.0.dylib");
    let res = canonicalize_rpath(&resources(), &file, rpath_install_name);
    assert!(res.is_ok());
    assert_eq!(res.unwrap(), expected);
}

#[test]
fn test_canonicalize_rpath_2() {
    let file = _get_resource_path(DYLIB_BINARY_1);
    let rpath_install_name = "@rpath/libassuan.9.dylib";
    let expected = _get_resource_path("poppler/libs/libassuan.9.dylib");
    let res = canonicalize_rpath(&resources(), &file, rpath_install_name);
    assert!(res.is_ok());
    assert_eq!(std::path::PathBuf::from(res.unwrap()), std::path::PathBuf::from(expected));
}

#[test]
fn test_get_id_1() {
    let file = _get_resource_path(DYLIB_BINARY_1);
    let expected = "@rpath/libassuan.9.dylib";
    let res = get_id(&resources(), &file);
    assert!(res.is_ok());
    assert_eq!(res.unwrap(), expected);
}

#[test]
fn test_get_id_2() {
    let file = _get_resource_path(DYLIB_BINARY_2);
    let expected = "@rpath/libfreetype.6.dylib";
    let res = get_id(&resources(), &file);
    assert!(res.is_ok());
    assert_eq!(res.unwrap(), expected);
}
