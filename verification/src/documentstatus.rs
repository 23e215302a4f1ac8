use vstd::prelude::*;
use crate::prelude::{LineIdx, sat_add};
use crate::fileinfo::{FileType, file_type_name};
use crate::text::{decimal, push_decimal, push_str};

verus! {

broadcast use vstd::string::group_string_axioms;

/// What the status bar shows about the document.
#[derive(Debug, PartialEq, Eq)]
pub struct DocumentStatus {
    pub file_name: String,
    pub file_type: FileType,
    pub total_lines: usize,
    pub current_line_idx: LineIdx,
    pub is_modified: bool,
}

impl Default for DocumentStatus {
    /// The status of an empty, unchanged text document with no name, the
    /// caret on the first line.
    fn default() -> (res: DocumentStatus)
        ensures
            res.file_name@ == Seq::<char>::empty(),
            res.file_type == FileType::Text,
            res.total_lines == 0,
            res.current_line_idx == 0,
            !res.is_modified,
    {
        DocumentStatus {
            file_name: String::new(),
            file_type: FileType::Text,
            total_lines: 0,
            current_line_idx: 0,
            is_modified: false,
        }
    }
}

impl DocumentStatus {
    /// `(modified)` when the document changed since it was loaded or saved,
    /// else the empty string.
    pub fn modified_indicator_to_string(&self) -> (res: String)
        ensures
            res@ == (if self.is_modified {
                seq!['(', 'm', 'o', 'd', 'i', 'f', 'i', 'e', 'd', ')']
            } else {
                Seq::<char>::empty()
            }),
    {
        proof {
            reveal_strlit("(modified)");
        }
        if self.is_modified {
            "(modified)".to_string()
        } else {
            String::new()
        }
    }

    /// The number of lines followed by ` lines`.
    pub fn line_count_to_string(&self) -> (res: String)
        ensures
            res@ == decimal(self.total_lines as nat) + seq![' ', 'l', 'i', 'n', 'e', 's'],
    {
        let mut res = String::new();
        push_decimal(&mut res, self.total_lines);
        proof {
            reveal_strlit(" lines");
        }
        push_str(&mut res, " lines");
        res
    }

    /// The caret's line number (counting from one, clamped at `usize::MAX`), a
    /// slash, and the number of lines.
    pub fn position_indicator_to_string(&self) -> (res: String)
        ensures
            res@ == decimal(sat_add(self.current_line_idx as int, 1) as nat) + seq!['/'] + decimal(self.total_lines as nat),
    {
        let mut res = String::new();
        push_decimal(&mut res, self.current_line_idx.saturating_add(1));
        proof {
            reveal_strlit("/");
        }
        push_str(&mut res, "/");
        push_decimal(&mut res, self.total_lines);
        res
    }

    /// The name of the document's file type.
    pub fn file_type_to_string(&self) -> (res: String)
        ensures
            res@ == file_type_name(self.file_type),
    {
        self.file_type.to_text()
    }
}

} // verus!
