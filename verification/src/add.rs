//! Adding a template: what a new template starts from.

use vstd::prelude::*;

verus! {

/// The template that a new template starts from where one is asked for.
pub const DEFAULT_TEMPLATE: &'static str = "\
---\n\
# This is a special variable that will be used as the templates\n\
# filename when the template is used in a project.\n\
#\n\
# Example:\n\
#\n\
# filename: justfile\n\
#\n\
# This will create a file called `justfile` when the template is applied.\n\
\n\
filename:\n\
\n\
# This is a variable that lets you specify what command to run on the\n\
# file when it is applied in a project.\n\
#\n\
# Example:\n\
#\n\
# command: chmod +x\n\
#\n\
# This will make the file executable when the template is applied.\n\
\n\
command:\n\
\n\
# This variable lets you specify which groups this file belongs to so\n\
# you can batch-apply files in the same group.\n\
#\n\
# Example:\n\
#\n\
# groups: [\"rust-cli\", \"utility\"]\n\
#\n\
# This will let you use the file in a project by running either one\n\
# of the following commands:\n\
#\n\
# ```\n\
# $ skel apply --groups rust-cli\n\
# $ skel apply --groups utility\n\
# $ skel apply --groups rust-cli utility\n\
# ```\n\
\n\
groups:\n\
\n\
# This is a variable with a random name, you can use it within the template\n\
# by using the `{% variable %}` syntax.\n\
\n\
variable: foo\n\
---\n\
Place your content here!\n\
\n\
Here is a variable interpolation: {% variable %}.\n\
";

/// The editor that opens a template: the one that was asked for, or else
/// the one that the environment names.
pub fn editor(asked: Option<String>, environment: Option<String>) -> (chosen: Option<String>)
    ensures
        chosen == match asked {
            Some(editor) => Some(editor),
            None => environment,
        },
{
    match asked {
        Some(editor) => Some(editor),
        None => environment,
    }
}

/// The content that a new template starts from where a file is taken in:
/// a header that names the file, and the file's text as the body.
pub open spec fn from_file_spec(filename: Seq<char>, text: Seq<char>) -> Seq<char> {
    "---\nfilename: "@ + filename + "\n---\n"@ + text
}

/// What the file of a new template holds before the editor opens it.
pub open spec fn initial_content_spec(
    with_template: bool,
    from_file: Option<(Seq<char>, Seq<char>)>,
) -> Option<Seq<char>> {
    match from_file {
        Some((filename, text)) => Some(from_file_spec(filename, text)),
        None => if with_template {
            Some(DEFAULT_TEMPLATE@)
        } else {
            None
        },
    }
}

/// What the file of a new template holds before the editor opens it: the
/// file that was taken in, with its name and its text, goes before the
/// default template, and without either the file is not written.
pub fn initial_content(with_template: bool, from_file: Option<(&str, &str)>) -> (content: Option<
    String,
>)
    ensures
        match content {
            Some(text) => initial_content_spec(
                with_template,
                match from_file {
                    Some((filename, text)) => Some((filename@, text@)),
                    None => None,
                },
            ) == Some(text@),
            None => !with_template && from_file is None,
        },
{
    match from_file {
        Some((filename, text)) => Some(
            String::from_str("---\nfilename: ").concat(filename).concat("\n---\n").concat(text),
        ),
        None => if with_template {
            Some(String::from_str(DEFAULT_TEMPLATE))
        } else {
            None
        },
    }
}

} // verus!
