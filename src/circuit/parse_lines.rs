use vstd::prelude::*;
use vstd::string::*;

verus! {

/// Lines joined into one text, each followed by a newline.
pub open spec fn joined(lines: Seq<Seq<char>>) -> Seq<char>
    decreases lines.len(),
{
    if lines.len() == 0 {
        Seq::empty()
    } else {
        lines[0] + seq!['\n'] + joined(lines.drop_first())
    }
}

pub open spec fn line_views(lines: Seq<String>) -> Seq<Seq<char>> {
    lines.map_values(|l: String| l@)
}

/// The characters of a sequence of lines, each line followed by a newline.
pub struct ChatIter {
    lines: Vec<String>,
    line_index: usize,
    char_index: usize,
}

impl ChatIter {
    /// The characters still to come.
    pub closed spec fn remaining(&self) -> Seq<char> {
        let ls = line_views(self.lines@);
        if self.line_index < ls.len() {
            ls[self.line_index as int].skip(self.char_index as int) + seq!['\n'] + joined(
                ls.skip(self.line_index + 1),
            )
        } else {
            Seq::empty()
        }
    }

    pub closed spec fn wf(&self) -> bool {
        self.line_index < self.lines.len() ==> self.char_index <= self.lines@[self.line_index as int]@.len()
    }

    pub fn from_lines(lines: Vec<String>) -> (r: Self)
        ensures
            r.wf(),
            r.remaining() == joined(line_views(lines@)),
    {
        let r = ChatIter { lines, line_index: 0, char_index: 0 };
        proof {
            let ls = line_views(r.lines@);
            if ls.len() > 0 {
                assert(ls[0].skip(0) =~= ls[0]);
                assert(ls.skip(1) =~= ls.drop_first());
            }
        }
        r
    }

    /// The next character, or `None` at the end.
    pub fn next(&mut self) -> (r: Option<char>)
        requires
            old(self).wf(),
        ensures
            final(self).wf(),
            old(self).remaining().len() == 0 ==> r is None && final(self).remaining().len() == 0,
            old(self).remaining().len() > 0 ==> r == Some(old(self).remaining()[0])
                && final(self).remaining() == old(self).remaining().drop_first(),
    {
        let ghost ls = line_views(self.lines@);
        if self.line_index >= self.lines.len() {
            return None;
        }
        let line = self.lines[self.line_index].as_str();
        let ghost rest = joined(ls.skip(self.line_index + 1));
        assert(ls[self.line_index as int] == line@);
        if self.char_index < line.unicode_len() {
            let c = line.get_char(self.char_index);
            proof {
                assert(line@.skip(self.char_index as int) =~= seq![c] + line@.skip(self.char_index + 1));
            }
            self.char_index = self.char_index + 1;
            proof {
                assert(old(self).remaining() =~= seq![c] + final(self).remaining());
            }
            Some(c)
        } else {
            proof {
                assert(line@.skip(self.char_index as int) =~= Seq::<char>::empty());
            }
            self.line_index = self.line_index + 1;
            self.char_index = 0;
            proof {
                let k = self.line_index as int;
                if k < ls.len() {
                    assert(ls.skip(k).drop_first() =~= ls.skip(k + 1));
                    assert(ls[k].skip(0) =~= ls[k]);
                    assert(rest =~= final(self).remaining());
                } else {
                    assert(ls.skip(k) =~= Seq::<Seq<char>>::empty());
                }
                assert(old(self).remaining() =~= seq!['\n'] + final(self).remaining());
            }
            Some('\n')
        }
    }
}

} // verus!
