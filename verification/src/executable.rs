//! What the local helper executable is called with, and where it is found.

use vstd::prelude::*;
use vstd::string::*;
use crate::decimal::millionths_text;
use crate::decimal::render_millionths;
use crate::error::ImportanceError;
use crate::model::models;
use crate::validate::dimensions_verdict;
use crate::validate::validate_dimensions;

verus! {

/// The file name of the helper executable on Windows.
pub const WINDOWS_FILE_NAME: &'static str = "Bellande_Node_Importance.exe";

/// The file name of the helper executable on other systems.
pub const FILE_NAME: &'static str = "Bellande_Node_Importance";

/// The first argument that the helper executable expects.
pub const PASSCODE: &'static str = "bellande_node_importance_executable_access_key";

/// Where the helper executable is found: a directory and the file's name in it.
#[derive(Clone, Debug, PartialEq, Eq)]
pub struct ExecutablePath {
    pub directory: String,
    pub file_name: String,
}

/// Model of an [`ExecutablePath`].
pub struct ExecutablePathModel {
    pub directory: Seq<char>,
    pub file_name: Seq<char>,
}

impl View for ExecutablePath {
    type V = ExecutablePathModel;

    open spec fn view(&self) -> ExecutablePathModel {
        ExecutablePathModel { directory: self.directory@, file_name: self.file_name@ }
    }
}

/// The file name of the helper executable on a system.
pub open spec fn executable_file_name(windows: bool) -> Seq<char> {
    if windows {
        WINDOWS_FILE_NAME@
    } else {
        FILE_NAME@
    }
}

/// The arguments of the helper executable, in order.
pub open spec fn argument_texts(
    node: Seq<char>,
    recent_nodes: Seq<char>,
    important_nodes: Seq<char>,
    adjacent_segments: Seq<char>,
    grid_steps: Seq<char>,
    min_segment_coverage: int,
) -> Seq<Seq<char>> {
    seq![
        PASSCODE@,
        node,
        recent_nodes,
        important_nodes,
        adjacent_segments,
        grid_steps,
        millionths_text(min_segment_coverage),
    ]
}

/// The helper executable lies in the directory `manifest_dir`; its file name depends on
/// whether the system is Windows.
pub fn get_executable_path(manifest_dir: &str, windows: bool) -> (path: ExecutablePath)
    ensures
        path@.directory == manifest_dir@,
        path@.file_name == executable_file_name(windows),
{
    let file_name = if windows {
        String::from_str(WINDOWS_FILE_NAME)
    } else {
        String::from_str(FILE_NAME)
    };
    ExecutablePath { directory: String::from_str(manifest_dir), file_name }
}

/// The arguments with which the helper executable is run, once the node's text and the
/// grid steps' text have passed the dimension check. `min_segment_coverage` counts
/// millionths.
pub fn executable_arguments(
    node: &str,
    recent_nodes: &str,
    important_nodes: &str,
    adjacent_segments: &str,
    grid_steps: &str,
    min_segment_coverage: i64,
) -> (arguments: Result<Vec<String>, ImportanceError>)
    ensures
        match dimensions_verdict(node@, grid_steps@) {
            Err(error) => arguments == Err::<Vec<String>, ImportanceError>(error),
            Ok(_) => arguments is Ok && models(arguments->Ok_0@) == argument_texts(
                node@,
                recent_nodes@,
                important_nodes@,
                adjacent_segments@,
                grid_steps@,
                min_segment_coverage as int,
            ),
        },
{
    match validate_dimensions(node, grid_steps) {
        Err(error) => Err(error),
        Ok(_) => {
            let mut arguments: Vec<String> = Vec::new();
            arguments.push(String::from_str(PASSCODE));
            arguments.push(String::from_str(node));
            arguments.push(String::from_str(recent_nodes));
            arguments.push(String::from_str(important_nodes));
            arguments.push(String::from_str(adjacent_segments));
            arguments.push(String::from_str(grid_steps));
            arguments.push(render_millionths(min_segment_coverage));
            assert(models(arguments@) =~= argument_texts(
                node@,
                recent_nodes@,
                important_nodes@,
                adjacent_segments@,
                grid_steps@,
                min_segment_coverage as int,
            ));
            Ok(arguments)
        },
    }
}

} // verus!
