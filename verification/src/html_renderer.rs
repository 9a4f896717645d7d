//! The HTML report's verified pieces: the renderer's own state, its column
//! headers, and the fixed style sheet. Writing the document itself is left
//! to the surrounding application.

use vstd::prelude::*;

use crate::dtfterminal_types::WorkingContext;

verus! {

/// The style sheet of the printer-friendly report: a light theme in widely
/// compatible CSS.
pub const PRINTER_CSS: &'static str = r#"* {
            font-family: Arial, Helvetica, sans-serif;
            box-sizing: border-box;
        }
        
        body {
            padding: 1em;
            font-size: 14px;
            background-color: #fff;
            color: #000;
        }
        
        h1, h2 {
            width: 100%;
            text-align: left;
        }
        
        h2 {
            margin-top: 2em;
        }
        
        .code {
            font-family: "Lucida Console", "Courier New", monospace;
        }
        
        .header .lead p .code {
            font-weight: bold;
            background-color: rgba(100, 100, 100, 0.4);
            padding: 0.2em;
            border-radius: 2px;
        }
        
        ul.table-of-contents {
            max-width: 30%;
            margin-top: 2em;
            margin-bottom: 2em;
            padding: 1em;
            list-style-type: none;
            border: 1px solid #000;
        }
        
        .table-of-contents h2 {
            margin-top: 0;
        }
        
        .table-of-contents li {
            width: 100%;
            padding: 0.5em 0;
            font-size: 1.2em;
        }
        
        .table-of-contents li a {
            color: #000;
            text-decoration: underline;
        }
        
        .table-of-contents li a:hover {
            color: #0000ff;
        }
        
        .diff-table {
            margin: auto;
            margin-top: 2em;
            text-align: center;
            width: 100%;
            color: #000;
        }
        
        .diff-table th, .diff-table td{
            padding: 1.2em;
            text-align: left;
        }
        
        .diff-table th {
            background-color: rgba(100, 100, 100, 0.3);
        }
        
        .diff-table tr:nth-child(odd) {
            background-color: rgba(100, 100, 100, 0.1);
        }
        
        .diff-table tr:nth-child(even) {
            background-color: rgba(100, 100, 100, 0.2);
        }
        
        .checkmark::before {
            visibility: visible;
            content: "\2713";
            font-weight: bold;
            font-size: 1.5em;
            color: #5aa25a;
        }

        .multiply::before {
            visibility: visible;
            content: "\00D7";
            font-weight: bold;
            font-size: 1.5em;
            color: #ff0000;
        }"#;

/// The style sheet of the regular report: a dark theme.
pub const SCREEN_CSS: &'static str = r#"* {
            font-family: Arial, Helvetica, sans-serif;
            box-sizing: border-box;
        }
        
        body {
            padding: 1em;
            font-size: 14px;
            background-color: #0a0b0b;
            color: #fff;
        }
        
        h1, h2 {
            width: fit-content;
            width: -moz-fit-content;
            text-align: left;
            background: linear-gradient(to right, #8e2de2, #4a00e0);
            background-clip: text;
            -webkit-text-fill-color: transparent;
        }
        
        h2 {
            margin-top: 2em;
        }
        
        .code {
            font-family: "Lucida Console", "Courier New", monospace;
        }
        
        .header {
            display: flex;
            flex-direction: row;
            justify-content: space-between;
        }
        
        .header .lead {
            display: flex;
            flex-direction: column;
        }
        
        .header .lead p .code {
            font-weight: bold;
            background-color: rgba(100, 100, 100, 0.4);
            padding: 0.2em;
            border-radius: 2px;
        }
        
        ul.table-of-contents {
            width: fit-content;
            width: -moz-fit-content;
            margin-top: 2em;
            margin-bottom: 2em;
            padding: 1em;
            background-color: rgba(100, 100, 100, 0.2);
            border-radius: 10px;
            list-style-type: none;
        }
        
        .table-of-contents h2 {
            margin-top: 0;
        }
        
        .table-of-contents li {
            width: 100%;
            padding: 0.5em 0;
            font-size: 1.2em;
        }
        
        .table-of-contents li a {
            color: #ffffff;
            text-decoration: underline;
        }
        
        .table-of-contents li a:hover {
            color: #787878;
        }
        
        .diff-table {
            margin: auto;
            margin-top: 2em;
            text-align: center;
            width: 100%;
            color: #ffffff;
            border-radius: 10px;
        }
        
        .diff-table th, .diff-table td{
            padding: 1.2em;
            text-align: left;
        }
        
        .diff-table th {
            background-color: rgba(100, 100, 100, 0.3);
        }
        
        .diff-table tr:nth-child(odd) {
            background-color: rgba(100, 100, 100, 0.1);
        }
        
        .diff-table tr:nth-child(even) {
            background-color: rgba(100, 100, 100, 0.2);
        }
        
        .checkmark::before {
            visibility: visible;
            content: "\2713";
            font-weight: bold;
            font-size: 1.5em;
            color:  #00ff00;
        }

        .multiply::before {
            visibility: visible;
            content: "\00D7";
            font-weight: bold;
            font-size: 1.5em;
            color: #ff0000;
        }"#;

/// The style sheet text by output flavor.
pub open spec fn css_text(printer_friendly: bool) -> Seq<char> {
    if printer_friendly {
        PRINTER_CSS@
    } else {
        SCREEN_CSS@
    }
}

/// Builds the HTML report around a finished comparison.
pub struct HtmlRenderer {
    pub context: WorkingContext,
    pub css: String,
}

impl HtmlRenderer {
    pub fn new(context: &WorkingContext) -> (r: HtmlRenderer)
        ensures
            r.context.lib_working_context.file_a.name@
                == context.lib_working_context.file_a.name@,
            r.context.lib_working_context.file_b.name@
                == context.lib_working_context.file_b.name@,
            r.context.config.snapshot() == context.config.snapshot(),
            r.css@ == css_text(context.config.printer_friendly),
    {
        let css = HtmlRenderer::create_css(context.config.printer_friendly);
        HtmlRenderer { context: context.clone(), css }
    }

    /// Creates a column header for the array differences table: the side
    /// that has the values, named.
    pub fn format_array_diff_table_header(&self, is_file_a: bool) -> (r: String)
        ensures
            r@ == "Only "@ + (if is_file_a {
                self.context.lib_working_context.file_a.name@
            } else {
                self.context.lib_working_context.file_b.name@
            }) + " has"@,
    {
        let (file_a, file_b) = self.context.get_file_names();
        let file_name = if is_file_a {
            file_a
        } else {
            file_b
        };
        let mut r = String::new();
        r.append("Only ");
        r.append(file_name);
        r.append(" has");
        proof {
            assert(r@ =~= "Only "@ + file_name@ + " has"@);
        }
        r
    }

    /// The style sheet for the HTML output; printer-friendly output is a
    /// light theme with black text.
    pub fn create_css(printer_friendly: bool) -> (r: String)
        ensures
            r@ == css_text(printer_friendly),
    {
        if printer_friendly {
            PRINTER_CSS.to_owned()
        } else {
            SCREEN_CSS.to_owned()
        }
    }
}

} // verus!
