//! Logo-paired line rendering: a fixed decorative logo, a cursor that walks
//! its rows once, and styled label/value lines.
use vstd::prelude::*;
use vstd::string::*;

verus! {

/// Style marker put before a label.
pub open spec fn header_seq() -> Seq<char> {
    "\u{1b}[33m"@
}

/// Style marker put between a label and its value.
pub open spec fn text_seq() -> Seq<char> {
    "\u{1b}[97m"@
}

/// Style reset, emitted once at the very end of a run.
pub open spec fn reset_seq() -> Seq<char> {
    "\u{1b}[00m"@
}

/// The rows of the fixed logo, in render order.
pub open spec fn logo_spec() -> Seq<Seq<char>> {
    seq![
        "             "@,
        "____________ "@,
        "| ___ \\  ___|"@,
        "| |_/ / |_   "@,
        "|    /|  _|  "@,
        "| |\\ \\| |    "@,
        "\\_| \\_\\_|    "@,
        "             "@,
        "             "@,
        " \u{1b}[41m  \u{1b}[42m  \u{1b}[43m  \u{1b}[44m  \u{1b}[45m  \u{1b}[46m  \u{1b}[00m"@,
    ]
}

/// The blank field emitted once the logo is exhausted: as wide as a logo
/// row plus its trailing space.
pub open spec fn blank_seq() -> Seq<char> {
    "              "@
}

/// What one logo-row render appends for a given cursor.
pub open spec fn logo_chunk(c: nat) -> Seq<char> {
    if c < logo_spec().len() {
        logo_spec()[c as int] + " "@
    } else {
        blank_seq()
    }
}

/// The cursor after one logo-row render.
pub open spec fn bump(c: nat) -> nat {
    if c < logo_spec().len() {
        c + 1
    } else {
        c
    }
}

/// The cursor after `n` logo-row renders.
pub open spec fn bump_n(c: nat, n: nat) -> nat
    decreases n,
{
    if n == 0 {
        c
    } else {
        bump_n(bump(c), (n - 1) as nat)
    }
}

pub proof fn lemma_bump_n_val(c: nat, n: nat)
    requires
        c <= logo_spec().len(),
    ensures
        bump_n(c, n) == if c + n < logo_spec().len() {
            c + n
        } else {
            logo_spec().len()
        },
    decreases n,
{
    if n > 0 {
        lemma_bump_n_val(bump(c), (n - 1) as nat);
    }
}

/// One text line: style marker, label, style switch, value, terminator.
pub open spec fn line_seq(label: Seq<char>, value: Seq<char>) -> Seq<char> {
    header_seq() + label + text_seq() + value + "\n"@
}

/// Row `i` of the fixed logo.
pub fn logo_row(i: usize) -> (r: &'static str)
    requires
        i < logo_spec().len(),
    ensures
        r@ == logo_spec()[i as int],
{
    match i {
        0 => "             ",
        1 => "____________ ",
        2 => "| ___ \\  ___|",
        3 => "| |_/ / |_   ",
        4 => "|    /|  _|  ",
        5 => "| |\\ \\| |    ",
        6 => "\\_| \\_\\_|    ",
        7 => "             ",
        8 => "             ",
        _ => " \u{1b}[41m  \u{1b}[42m  \u{1b}[43m  \u{1b}[44m  \u{1b}[45m  \u{1b}[46m  \u{1b}[00m",
    }
}

/// Accumulates the rendered output of one run and tracks how many logo
/// rows have been consumed.  The cursor never exceeds the logo length and
/// never resets within a run.
pub struct Renderer {
    pub cursor: usize,
    pub out: String,
}

impl Renderer {
    pub open spec fn wf(self) -> bool {
        self.cursor <= logo_spec().len()
    }

    pub fn new() -> (r: Renderer)
        ensures
            r.wf(),
            r.cursor == 0,
            r.out@ == Seq::<char>::empty(),
    {
        Renderer { cursor: 0, out: String::new() }
    }

    /// Appends `s` to the output unchanged, consuming no logo row.
    pub fn emit(&mut self, s: &str)
        ensures
            final(self).out@ == old(self).out@ + s@,
            final(self).cursor == old(self).cursor,
    {
        self.out.append(s);
    }

    /// Renders the next unconsumed logo row followed by one space, and
    /// advances the cursor; once the logo is exhausted, renders the blank
    /// field instead and leaves the cursor where it is.
    pub fn display_logo_line(&mut self)
        requires
            old(self).wf(),
        ensures
            final(self).wf(),
            final(self).out@ == old(self).out@ + logo_chunk(old(self).cursor as nat),
            final(self).cursor as nat == bump(old(self).cursor as nat),
    {
        if self.cursor < 10 {
            let row = logo_row(self.cursor);
            self.out.append(row);
            self.out.append(" ");
            proof {
                assert(self.out@ =~= old(self).out@ + logo_chunk(old(self).cursor as nat));
            }
            self.cursor = self.cursor + 1;
        } else {
            self.out.append("              ");
        }
    }

    /// Renders one styled line: header marker, `text1`, text marker,
    /// `text2`, newline.
    pub fn display(&mut self, text1: &str, text2: &str)
        ensures
            final(self).out@ == old(self).out@ + line_seq(text1@, text2@),
            final(self).cursor == old(self).cursor,
    {
        self.out.append("\u{1b}[33m");
        self.out.append(text1);
        self.out.append("\u{1b}[97m");
        self.out.append(text2);
        self.out.append("\n");
        proof {
            assert(self.out@ =~= old(self).out@ + line_seq(text1@, text2@));
        }
    }
}

/// The lines a non-empty titled group renders: a logo-paired title row,
/// then one indented logo-paired row per entry.
pub open spec fn items_block(c: nat, items: Seq<Seq<char>>) -> Seq<char>
    decreases items.len(),
{
    if items.len() == 0 {
        Seq::empty()
    } else {
        logo_chunk(c) + line_seq("   "@, items[0]) + items_block(bump(c), items.drop_first())
    }
}

/// What a titled group appends: nothing at all when it has no entries.
pub open spec fn list_block(c: nat, title: Seq<char>, items: Seq<Seq<char>>) -> Seq<char> {
    if items.len() == 0 {
        Seq::empty()
    } else {
        logo_chunk(c) + line_seq(title, ""@) + items_block(bump(c), items)
    }
}

/// The cursor after a titled group: unchanged when empty, else advanced
/// once for the title and once per entry.
pub open spec fn list_bump(c: nat, n: nat) -> nat {
    if n == 0 {
        c
    } else {
        bump_n(c, n + 1)
    }
}

/// Renders a titled group of free-text entries, only if it is non-empty:
/// a title line, then each entry indented, each paired with a logo row.
pub fn display_list_of_data(r: &mut Renderer, title: &str, data: &Vec<String>)
    requires
        old(r).wf(),
    ensures
        final(r).wf(),
        final(r).out@ == old(r).out@ + list_block(old(r).cursor as nat, title@, data.deep_view()),
        final(r).cursor as nat == list_bump(old(r).cursor as nat, data@.len() as nat),
{
    let ghost c0 = r.cursor as nat;
    let ghost all = data.deep_view();
    if data.len() != 0 {
        r.display_logo_line();
        r.display(title, "");
        let mut i: usize = 0;
        proof {
            assert(all.skip(0) =~= all);
            assert(old(r).out@ + list_block(c0, title@, all) =~= r.out@ + items_block(
                bump(c0),
                all,
            ));
        }
        while i < data.len()
            invariant
                i <= data@.len(),
                all == data.deep_view(),
                c0 <= logo_spec().len(),
                r.wf(),
                r.cursor as nat == bump_n(bump(c0), i as nat),
                old(r).out@ + list_block(c0, title@, all) == r.out@ + items_block(
                    r.cursor as nat,
                    all.skip(i as int),
                ),
            decreases data@.len() - i,
        {
            let ghost rem = all.skip(i as int);
            let ghost cc = r.cursor as nat;
            let ghost out_pre = r.out@;
            r.display_logo_line();
            r.display("   ", data[i].as_str());
            proof {
                assert(all[i as int] == data@[i as int]@);
                assert(rem[0] == all[i as int]);
                assert(rem.drop_first() =~= all.skip(i + 1));
                assert(items_block(cc, rem) == logo_chunk(cc) + line_seq("   "@, rem[0])
                    + items_block(bump(cc), rem.drop_first()));
                lemma_bump_n_val(bump(c0), i as nat);
                lemma_bump_n_val(bump(c0), 1 + i as nat);
                assert(out_pre + items_block(cc, rem) =~= r.out@ + items_block(
                    bump(cc),
                    all.skip(i + 1),
                ));
            }
            i = i + 1;
        }
        proof {
            assert(all.skip(all.len() as int) =~= Seq::<Seq<char>>::empty());
            assert(items_block(r.cursor as nat, all.skip(all.len() as int)) =~= Seq::<
                char,
            >::empty());
            assert(r.out@ =~= old(r).out@ + list_block(c0, title@, all));
            lemma_bump_n_val(c0, all.len() as nat + 1);
            lemma_bump_n_val(bump(c0), all.len() as nat);
        }
    } else {
        proof {
            assert(r.out@ =~= old(r).out@ + list_block(c0, title@, all));
        }
    }
}

/// The pairing law of the renderer: starting a run at cursor zero, the
/// `k`-th logo-row render (counting from zero) emits logo row `k` while
/// rows remain, in order, and every later one emits the blank field, which
/// is exactly as wide as a logo row plus its trailing space.
pub proof fn lemma_logo_call_sequence(k: nat)
    ensures
        k < logo_spec().len() ==> bump_n(0, k) == k && logo_chunk(bump_n(0, k)) == logo_spec()[k as int]
            + " "@,
        k >= logo_spec().len() ==> bump_n(0, k) == logo_spec().len() && logo_chunk(bump_n(0, k))
            == blank_seq(),
        blank_seq().len() == logo_spec()[0].len() + 1,
{
    lemma_bump_n_val(0, k);
    reveal_strlit("              ");
    reveal_strlit("             ");
    reveal_strlit(" ");
}

} // verus!
