//! What the report shows, as text: the lines for dead files, separators and
//! hyperlinks. Colour and the terminal itself are the caller's.
use crate::paths::{join, join_path};
use vstd::prelude::*;
use vstd::string::*;

verus! {

/// The width of a separator when the terminal's is unknown.
pub const DEFAULT_SEPARATOR_SIZE: u16 = 80;

/// The counts that end a report.
pub struct Stats {
    pub dead_files: usize,
    pub scanned_files: usize,
    pub duration: std::time::Duration,
}

/// A dead file, as shown (`repr`) and as linked (`full_path`).
pub struct DeadFile {
    pub repr: String,
    pub full_path: String,
}

/// One item of a report.
pub enum Printable {
    Message(String),
    Error(String),
    Stats(Stats),
    DeadFile(DeadFile),
    Separator,
}

/// A terminal hyperlink (OSC 8) to `uri`, with an optional `id`.
pub struct Hyperlink {
    pub uri: String,
    pub id: Option<String>,
}

/// The escape that opens an OSC 8 sequence.
pub open spec fn osc8() -> Seq<char> {
    seq!['\x1b', ']', '8']
}

/// The string terminator.
pub open spec fn st() -> Seq<char> {
    seq!['\x1b', '\\']
}

/// The text of `link`: with `alternate`, the sequence that ends a link;
/// else the one that starts it, carrying the id when there is one.
pub open spec fn hyperlink_text(link: Hyperlink, alternate: bool) -> Seq<char> {
    if alternate {
        osc8() + seq![';', ';'] + st()
    } else if link.id is Some {
        osc8() + seq![';', 'i', 'd', '='] + link.id->0@ + seq![';'] + link.uri@ + st()
    } else {
        osc8() + seq![';', ';'] + link.uri@ + st()
    }
}

/// `n` dashes.
pub open spec fn dashes(n: nat) -> Seq<char> {
    Seq::new(n, |i: int| '-')
}

/// The scheme prefix of a file URI.
pub open spec fn file_scheme() -> Seq<char> {
    seq!['f', 'i', 'l', 'e', ':', '/', '/']
}

/// The line of a dead file: its shown form, wrapped in a link to its full
/// path.
pub open spec fn dead_file_text(file: DeadFile) -> Seq<char> {
    let link = Hyperlink { uri: arbitrary(), id: None };
    osc8() + seq![';', ';'] + file_scheme() + file.full_path@ + st() + file.repr@ + hyperlink_text(
        link,
        true,
    )
}

impl Hyperlink {
    /// The escape text of this link; `alternate` asks for the one that ends it.
    pub fn render(&self, alternate: bool) -> (r: String)
        ensures
            r@ == hyperlink_text(*self, alternate),
    {
        let osc = "\x1b]8";
        let term = "\x1b\\";
        let semis = ";;";
        let semi = ";";
        let id_eq = ";id=";
        proof {
            reveal_strlit("\x1b]8");
            reveal_strlit("\x1b\\");
            reveal_strlit(";;");
            reveal_strlit(";");
            reveal_strlit(";id=");
        }
        let mut out = String::from_str(osc);
        if alternate {
            out.append(semis);
        } else {
            match &self.id {
                Some(id) => {
                    out.append(id_eq);
                    out.append(id.as_str());
                    out.append(semi);
                    out.append(self.uri.as_str());
                },
                None => {
                    out.append(semis);
                    out.append(self.uri.as_str());
                },
            }
        }
        out.append(term);
        assert(out@ =~= hyperlink_text(*self, alternate));
        out
    }
}

/// Formats report items as text.
pub struct TerminalPrinter;

impl TerminalPrinter {
    /// A separator line of `width` dashes.
    pub fn separator_line(&self, width: u16) -> (r: String)
        ensures
            r@ == dashes(width as nat),
    {
        let dash = "-";
        proof {
            reveal_strlit("-");
        }
        let mut out = String::new();
        let mut i: u16 = 0;
        while i < width
            invariant
                i <= width,
                dash@ == seq!['-'],
                out@ == dashes(i as nat),
            decreases width - i,
        {
            out.append(dash);
            assert(out@ =~= dashes((i + 1) as nat));
            i = i + 1;
        }
        out
    }

    /// The line of a dead file: its shown form, as a link to its full path.
    pub fn dead_file_line(&self, file: &DeadFile) -> (r: String)
        ensures
            r@ == dead_file_text(*file),
    {
        let scheme = "file://";
        proof {
            reveal_strlit("file://");
        }
        let link = Hyperlink { uri: String::from_str(scheme).concat(file.full_path.as_str()), id: None };
        let mut out = link.render(false);
        out.append(file.repr.as_str());
        let close = link.render(true);
        out.append(close.as_str());
        assert(out@ =~= dead_file_text(*file));
        out
    }
}

/// `p` shows the dead file `rel`, linked to its path under `root`.
pub open spec fn shows_dead_file(p: Printable, rel: Seq<char>, root: Seq<char>) -> bool {
    match p {
        Printable::DeadFile(f) => f.repr@ == rel && f.full_path@ == join_path(root, rel),
        _ => false,
    }
}

/// The report of `dead` (paths relative to `root`). On a terminal: a
/// separator, each dead file with a link to its full path, a separator and
/// the counts. Elsewhere: the dead files alone, one per item.
pub fn report(
    dead: &Vec<String>,
    root: &String,
    scanned_files: usize,
    duration: std::time::Duration,
    interactive: bool,
) -> (r: Vec<Printable>)
    ensures
        ({
            let off: int = if interactive {
                1
            } else {
                0
            };
            &&& r@.len() == dead@.len() + if interactive {
                3int
            } else {
                0int
            }
            &&& forall|i: int|
                0 <= i < dead@.len() ==> shows_dead_file(r@[i + off], #[trigger] dead@[i]@, root@)
            &&& interactive ==> r@[0] is Separator && r@[r@.len() - 2] is Separator && (
            r@[r@.len() - 1] matches Printable::Stats(s) && s.dead_files == dead@.len()
                && s.scanned_files == scanned_files && s.duration == duration)
        }),
{
    let mut out: Vec<Printable> = Vec::new();
    if interactive {
        out.push(Printable::Separator);
    }
    let ghost off: int = if interactive {
        1
    } else {
        0
    };
    let mut i: usize = 0;
    while i < dead.len()
        invariant
            i <= dead@.len(),
            off == if interactive {
                1int
            } else {
                0int
            },
            out@.len() == i + off,
            interactive ==> out@[0] is Separator,
            forall|k: int|
                0 <= k < i ==> shows_dead_file(out@[k + off], #[trigger] dead@[k]@, root@),
        decreases dead@.len() - i,
    {
        let full = join(root.as_str(), dead[i].as_str());
        let ghost before = out@;
        out.push(Printable::DeadFile(DeadFile { repr: dead[i].clone(), full_path: full }));
        assert forall|k: int| 0 <= k < i implies #[trigger] out@[k + off] == before[k + off] by {}
        assert(shows_dead_file(out@[i + off], dead@[i as int]@, root@));
        i = i + 1;
    }
    let ghost body = out@;
    if interactive {
        out.push(Printable::Separator);
        out.push(
            Printable::Stats(
                Stats { dead_files: dead.len(), scanned_files: scanned_files, duration: duration },
            ),
        );
        assert forall|k: int| 0 <= k < body.len() implies out@[k] == body[k] by {}
    }
    out
}

} // verus!
