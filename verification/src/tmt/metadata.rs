//! The metadata at the head of a test file.
//!
//! ```text
//! # number: N
//! # extra:
//! #   try_bind_storage: true
//! # tmt:
//! #   (yaml content)
//! ```

use vstd::prelude::*;

use crate::text::{
    after_prefix, begins_with, concat2, decimal, digit_value, is_blank, is_printable_ascii, join,
    joined, law_decimal_is_digits, law_decimal_reads_back, law_trim, lines, lines_of,
    parse_unsigned, same, strip_prefix, texts, trim, trimmed, unsigned_of,
};
use crate::yaml::{mapping_new, mapping_value, parse_document, yaml_parsed, yaml_value, Yaml};

verus! {

/// How many lines of a test file are looked at.
pub const METADATA_LINES: usize = 50;

/// The metadata block that a line stands in.
#[derive(Clone, Copy, PartialEq, Eq, Structural, Debug)]
pub enum Block {
    Outside,
    Extra,
    Tmt,
}

/// What has been read of a file so far, in terms of texts.
pub struct Scan {
    pub number: Option<nat>,
    pub block: Block,
    pub extra: Seq<Seq<char>>,
    pub tmt: Seq<Seq<char>>,
}

/// What has been read before the first line.
pub open spec fn scan_start() -> Scan {
    Scan { number: None, block: Block::Outside, extra: seq![], tmt: seq![] }
}

/// What one more line adds; `None` where it holds a malformed number.
///
/// A block goes on up to a line that is not a comment, or that is `#` alone.
/// Inside it, the text behind the leading `#` is kept with its indentation.
pub open spec fn scan_line(st: Scan, line: Seq<char>) -> Option<Scan> {
    let trimmed = trim(line);
    match strip_prefix(trimmed, "# number:"@) {
        Some(rest) => match parse_unsigned(trim(rest), 10, u32::MAX as nat) {
            Some(n) => Some(Scan { number: Some(n), ..st }),
            None => None,
        },
        None => if trimmed == "# extra:"@ {
            Some(Scan { block: Block::Extra, ..st })
        } else if trimmed == "# tmt:"@ {
            Some(Scan { block: Block::Tmt, ..st })
        } else if st.block == Block::Outside {
            Some(st)
        } else if !"#"@.is_prefix_of(trimmed) || trimmed == "#"@ {
            Some(Scan { block: Block::Outside, ..st })
        } else {
            match strip_prefix(line, "#"@) {
                Some(body) if st.block == Block::Extra => Some(
                    Scan { extra: st.extra.push(body), ..st },
                ),
                Some(body) => Some(Scan { tmt: st.tmt.push(body), ..st }),
                None => Some(st),
            }
        },
    }
}

/// What a list of lines holds; `None` where one of them holds a malformed number.
pub open spec fn scan_lines(ls: Seq<Seq<char>>) -> Option<Scan>
    decreases ls.len(),
{
    if ls.len() == 0 {
        Some(scan_start())
    } else {
        match scan_lines(ls.drop_last()) {
            Some(st) => scan_line(st, ls.last()),
            None => None,
        }
    }
}

/// The lines of a file that are looked at.
pub open spec fn head_lines(content: Seq<char>) -> Seq<Seq<char>> {
    let ls = lines(content);
    if ls.len() > METADATA_LINES {
        ls.take(METADATA_LINES as int)
    } else {
        ls
    }
}

/// The document in a block: an empty mapping where the block is blank.
pub open spec fn block_document(block: Seq<char>) -> Option<Yaml> {
    if trim(block).len() == 0 {
        Some(Yaml::Mapping(seq![]))
    } else {
        yaml_parsed(block)
    }
}

/// What parsing a test file comes to.
pub enum MetadataOutcome {
    /// A `# number:` line holds no number of 32 bits.
    BadNumber,
    /// There is no `# number:` line.
    Absent,
    /// The `extra` block is not YAML.
    BadExtra,
    /// The `tmt` block is not YAML.
    BadTmt,
    Found { number: nat, extra: Yaml, tmt: Yaml },
}

/// What the blocks of a file come to, given the documents in them.
pub open spec fn outcome_of(number: nat, extra: Option<Yaml>, tmt: Option<Yaml>) -> MetadataOutcome {
    match (extra, tmt) {
        (Some(extra), Some(tmt)) => MetadataOutcome::Found { number, extra, tmt },
        (None, _) => MetadataOutcome::BadExtra,
        (_, None) => MetadataOutcome::BadTmt,
    }
}

/// What parsing a test file comes to.
pub open spec fn metadata_outcome(content: Seq<char>) -> MetadataOutcome {
    match scan_lines(head_lines(content)) {
        None => MetadataOutcome::BadNumber,
        Some(st) => match st.number {
            None => MetadataOutcome::Absent,
            Some(n) => outcome_of(
                n,
                block_document(join(st.extra, "\n"@)),
                block_document(join(st.tmt, "\n"@)),
            ),
        },
    }
}

/// The metadata of a test.
#[derive(Debug)]
pub struct TmtMetadata {
    /// Test number for ordering and naming.
    pub number: u32,
    /// Extra metadata (`try_bind_storage` and the like).
    pub extra: serde_yaml::Value,
    /// TMT metadata (`summary`, `duration`, `adjust`, `require` and the like).
    pub tmt: serde_yaml::Value,
}

/// Why the metadata of a test cannot be read.
#[derive(Debug)]
pub enum MetadataError {
    Number,
    /// The block that is not YAML, and what the parser says of it.
    Extra(String, serde_yaml::Error),
    Tmt(String, serde_yaml::Error),
}

impl MetadataError {
    /// The text of the error.
    pub open spec fn text(self) -> Seq<char> {
        match self {
            MetadataError::Number => "Failed to parse number field"@,
            MetadataError::Extra(block, _) => "Failed to parse extra metadata YAML:\n"@ + block@,
            MetadataError::Tmt(block, _) => "Failed to parse tmt metadata YAML:\n"@ + block@,
        }
    }

    /// The text of the error.
    pub fn message(&self) -> (r: String)
        ensures
            r@ == self.text(),
    {
        match self {
            MetadataError::Number => "Failed to parse number field".to_string(),
            MetadataError::Extra(block, _) => concat2(
                "Failed to parse extra metadata YAML:\n",
                block.as_str(),
            ),
            MetadataError::Tmt(block, _) => concat2(
                "Failed to parse tmt metadata YAML:\n",
                block.as_str(),
            ),
        }
    }
}

/// The text blocks of the metadata of a test.
#[derive(Debug)]
pub struct MetadataBlocks {
    pub number: u32,
    pub extra: String,
    pub tmt: String,
}

/// The lines of the blocks, while a file is being read.
struct Reading {
    number: Option<u32>,
    block: Block,
    extra: Vec<String>,
    tmt: Vec<String>,
}

impl Reading {
    spec fn view(&self) -> Scan {
        Scan {
            number: match self.number {
                Some(n) => Some(n as nat),
                None => None,
            },
            block: self.block,
            extra: texts(self.extra@),
            tmt: texts(self.tmt@),
        }
    }

    /// Reads one more line; `false` where it holds a malformed number.
    fn line(&mut self, line: &str) -> (r: bool)
        ensures
            match scan_line(old(self)@, line@) {
                Some(st) => r && final(self)@ == st,
                None => !r,
            },
    {
        broadcast use crate::text::group_texts;

        let trimmed = trimmed(line);
        match after_prefix(trimmed.as_str(), "# number:") {
            Some(rest) => {
                let digits = crate::text::trimmed(rest.as_str());
                match unsigned_of(digits.as_str(), 10, u32::MAX as u64) {
                    Some(n) => {
                        self.number = Some(n as u32);
                        return true;
                    },
                    None => {
                        return false;
                    },
                }
            },
            None => {},
        }
        if same(trimmed.as_str(), "# extra:") {
            self.block = Block::Extra;
        } else if same(trimmed.as_str(), "# tmt:") {
            self.block = Block::Tmt;
        } else if self.block != Block::Outside {
            if !begins_with(trimmed.as_str(), "#") || same(trimmed.as_str(), "#") {
                self.block = Block::Outside;
            } else {
                match after_prefix(line, "#") {
                    Some(body) => {
                        if self.block == Block::Extra {
                            self.extra.push(body);
                        } else {
                            self.tmt.push(body);
                        }
                    },
                    None => {},
                }
            }
        }
        true
    }
}

/// Reads the metadata blocks of a test file, without parsing what is in them.
pub fn metadata_blocks(content: &str) -> (r: Result<Option<MetadataBlocks>, MetadataError>)
    ensures
        match scan_lines(head_lines(content@)) {
            None => r == Err::<Option<MetadataBlocks>, MetadataError>(MetadataError::Number),
            Some(st) => match st.number {
                None => r == Ok::<Option<MetadataBlocks>, MetadataError>(None),
                Some(n) => r matches Ok(Some(b)) && b.number == n && b.extra@ == join(
                    st.extra,
                    "\n"@,
                ) && b.tmt@ == join(st.tmt, "\n"@),
            },
        },
{
    let all = lines_of(content);
    let count: usize = if all.len() > METADATA_LINES {
        METADATA_LINES
    } else {
        all.len()
    };
    let ghost ls = head_lines(content@);
    assert(ls =~= texts(all@).take(count as int));
    let mut reading = Reading {
        number: None,
        block: Block::Outside,
        extra: Vec::new(),
        tmt: Vec::new(),
    };
    assert(texts(reading.extra@) =~= seq![]);
    assert(texts(reading.tmt@) =~= seq![]);
    let mut i: usize = 0;
    assert(ls.take(0).len() == 0);
    while i < count
        invariant
            i <= count <= all@.len(),
            ls == texts(all@).take(count as int),
            ls == head_lines(content@),
            scan_lines(ls.take(i as int)) == Some(reading@),
        decreases count - i,
    {
        assert(ls.take(i + 1).drop_last() =~= ls.take(i as int));
        if !reading.line(all[i].as_str()) {
            proof {
                lemma_scan_stays_bad(ls, i + 1);
            }
            return Err(MetadataError::Number);
        }
        i = i + 1;
    }
    assert(ls.take(i as int) =~= ls);
    match reading.number {
        None => Ok(None),
        Some(number) => {
            let extra = joined(&reading.extra, "\n");
            let tmt = joined(&reading.tmt, "\n");
            Ok(Some(MetadataBlocks { number, extra, tmt }))
        },
    }
}

/// Lines behind a malformed number do not mend it.
proof fn lemma_scan_stays_bad(ls: Seq<Seq<char>>, i: int)
    requires
        0 <= i <= ls.len(),
        scan_lines(ls.take(i)) is None,
    ensures
        scan_lines(ls) is None,
    decreases ls.len() - i,
{
    if i < ls.len() {
        assert(ls.take(i + 1).drop_last() =~= ls.take(i));
        lemma_scan_stays_bad(ls, i + 1);
    } else {
        assert(ls.take(i) =~= ls);
    }
}

/// The document in a block: an empty mapping where the block is blank.
pub fn parse_block(block: &str) -> (r: Result<serde_yaml::Value, serde_yaml::Error>)
    ensures
        match r {
            Ok(v) => block_document(block@) == Some(yaml_value(v)),
            Err(_) => block_document(block@) is None,
        },
{
    if trimmed(block).as_str().is_empty() {
        Ok(mapping_value(mapping_new()))
    } else {
        parse_document(block)
    }
}

/// Parses the tmt metadata of a test file.
///
/// Gives `None` for a file without a `# number:` line.
pub fn parse_tmt_metadata(content: &str) -> (r: Result<Option<TmtMetadata>, MetadataError>)
    ensures
        match metadata_outcome(content@) {
            MetadataOutcome::BadNumber => r matches Err(MetadataError::Number),
            MetadataOutcome::Absent => r matches Ok(None),
            MetadataOutcome::BadExtra => r matches Err(MetadataError::Extra(block, _))
                && block@ == join(scan_lines(head_lines(content@))->0.extra, "\n"@),
            MetadataOutcome::BadTmt => r matches Err(MetadataError::Tmt(block, _)) && block@
                == join(scan_lines(head_lines(content@))->0.tmt, "\n"@),
            MetadataOutcome::Found { number, extra, tmt } => r matches Ok(Some(m)) && m.number
                == number && yaml_value(m.extra) == extra && yaml_value(m.tmt) == tmt,
        },
{
    let blocks = match metadata_blocks(content) {
        Err(e) => return Err(e),
        Ok(None) => return Ok(None),
        Ok(Some(blocks)) => blocks,
    };
    let extra = match parse_block(blocks.extra.as_str()) {
        Ok(v) => v,
        Err(e) => return Err(MetadataError::Extra(blocks.extra, e)),
    };
    let tmt = match parse_block(blocks.tmt.as_str()) {
        Ok(v) => v,
        Err(e) => return Err(MetadataError::Tmt(blocks.tmt, e)),
    };
    Ok(Some(TmtMetadata { number: blocks.number, extra, tmt }))
}

// ---------------------------------------------------------------------------
// Laws of the metadata
// ---------------------------------------------------------------------------

/// Whether a text is a line of a block: two spaces at least, then something up to a character that
/// prints.
pub open spec fn is_block_line(body: Seq<char>) -> bool {
    body.len() > 2 && body[0] == ' ' && body[1] == ' ' && is_printable_ascii(body.last())
}

/// The lines behind a `#` each.
pub open spec fn commented(bodies: Seq<Seq<char>>) -> Seq<Seq<char>> {
    Seq::new(bodies.len(), |i: int| seq!['#'] + bodies[i])
}

/// A line of a block is kept in it, without its `#` and with its indentation.
proof fn lemma_scan_block_line(st: Scan, body: Seq<char>)
    requires
        is_block_line(body),
        st.block != Block::Outside,
    ensures
        scan_line(st, seq!['#'] + body) == Some(
            if st.block == Block::Extra {
                Scan { extra: st.extra.push(body), ..st }
            } else {
                Scan { tmt: st.tmt.push(body), ..st }
            },
        ),
{
    reveal_strlit("# number:");
    reveal_strlit("# extra:");
    reveal_strlit("# tmt:");
    reveal_strlit("#");
    let line = seq!['#'] + body;
    law_trim(seq![], line, seq![]);
    assert(Seq::<char>::empty() + line + seq![] =~= line);
    assert(line[2] == ' ');
    assert(!"# number:"@.is_prefix_of(line)) by {
        if "# number:"@.is_prefix_of(line) {
            assert(line.subrange(0, 9)[2] == 'n');
        }
    }
    assert("# extra:"@[2] != line[2]);
    assert("# tmt:"@[2] != line[2]);
    assert("#"@ =~= line.subrange(0, 1));
    assert("#"@.len() != line.len());
    assert(line.skip(1) =~= body);
}

/// Lines of a block are kept in it.
proof fn lemma_scan_block(ls: Seq<Seq<char>>, bodies: Seq<Seq<char>>)
    requires
        scan_lines(ls) matches Some(st) && st.block != Block::Outside,
        forall|i: int| 0 <= i < bodies.len() ==> is_block_line(#[trigger] bodies[i]),
    ensures
        scan_lines(ls + commented(bodies)) == Some(
            {
                let st = scan_lines(ls)->0;
                if st.block == Block::Extra {
                    Scan { extra: st.extra + bodies, ..st }
                } else {
                    Scan { tmt: st.tmt + bodies, ..st }
                }
            },
        ),
    decreases bodies.len(),
{
    let st = scan_lines(ls)->0;
    if bodies.len() == 0 {
        assert(ls + commented(bodies) =~= ls);
        assert(st.extra + bodies =~= st.extra);
        assert(st.tmt + bodies =~= st.tmt);
    } else {
        let head = bodies.drop_last();
        let last = bodies.last();
        assert forall|i: int| 0 <= i < head.len() implies is_block_line(#[trigger] head[i]) by {
            assert(head[i] == bodies[i]);
        }
        assert(is_block_line(bodies[bodies.len() - 1]));
        lemma_scan_block(ls, head);
        let all = ls + commented(bodies);
        assert(all.drop_last() =~= ls + commented(head));
        assert(all.last() == seq!['#'] + last);
        lemma_scan_block_line(scan_lines(ls + commented(head))->0, last);
        assert((st.extra + head).push(last) =~= st.extra + bodies);
        assert((st.tmt + head).push(last) =~= st.tmt + bodies);
    }
}

/// What the lines that begin something say.
proof fn lemma_scan_heads(st: Scan, n: nat, line: Seq<char>)
    requires
        n <= u32::MAX,
        line.len() > 0,
        is_printable_ascii(line[0]),
        is_printable_ascii(line.last()),
        line[0] != '#',
    ensures
        scan_line(st, "# number: "@ + decimal(n)) == Some(Scan { number: Some(n), ..st }),
        scan_line(st, "# extra:"@) == Some(Scan { block: Block::Extra, ..st }),
        scan_line(st, "# tmt:"@) == Some(Scan { block: Block::Tmt, ..st }),
        scan_line(st, line) == Some(Scan { block: Block::Outside, ..st }),
        scan_line(st, "#"@) == Some(Scan { block: Block::Outside, ..st }),
{
    reveal_strlit("# number:");
    reveal_strlit("# number: ");
    reveal_strlit("# extra:");
    reveal_strlit("# tmt:");
    reveal_strlit("#");
    let none: Seq<char> = seq![];
    law_decimal_is_digits(n);
    let d = decimal(n);
    assert('0' <= d[0] && '0' <= d[d.len() - 1] && d[0] <= '9' && d[d.len() - 1] <= '9');
    let number = "# number: "@ + d;
    assert(number.last() == d[d.len() - 1]);
    law_trim(none, number, none);
    assert(none + number + none =~= number);
    assert("# number:"@ =~= number.subrange(0, 9));
    let rest = number.skip(9);
    assert(rest =~= seq![' '] + d + none);
    law_trim(seq![' '], d, none);
    law_decimal_reads_back(n, u32::MAX as nat);
    law_trim(none, "# extra:"@, none);
    assert(none + "# extra:"@ + none =~= "# extra:"@);
    law_trim(none, "# tmt:"@, none);
    assert(none + "# tmt:"@ + none =~= "# tmt:"@);
    law_trim(none, "#"@, none);
    assert(none + "#"@ + none =~= "#"@);
    law_trim(none, line, none);
    assert(none + line + none =~= line);
    assert(!"# number:"@.is_prefix_of("# extra:"@));
    assert(!"# number:"@.is_prefix_of("# tmt:"@));
    assert(!"# number:"@.is_prefix_of("#"@));
    assert("# extra:"@.len() != "# tmt:"@.len());
    assert(!"#"@.is_prefix_of(line)) by {
        if "#"@.is_prefix_of(line) {
            assert(line.subrange(0, 1)[0] == '#');
        }
    }
    assert(!"# number:"@.is_prefix_of(line)) by {
        if "# number:"@.is_prefix_of(line) {
            assert(line.subrange(0, 9)[0] == '#');
        }
    }
    assert("# extra:"@[0] == '#' && "# tmt:"@[0] == '#');
    assert(Scan { block: Block::Outside, ..st } == st || st.block != Block::Outside);
}

/// The metadata of a file is read from its head: the number, the extra block and the tmt block, each
/// with its own lines and their indentation, up to the first line that is no comment; what stands
/// behind the fiftieth line does not matter, and neither does what comes after the blocks.
pub proof fn law_metadata_is_read(
    content: Seq<char>,
    n: nat,
    extra: Seq<Seq<char>>,
    tmt: Seq<Seq<char>>,
    stop: Seq<char>,
    code: Seq<Seq<char>>,
)
    requires
        n <= u32::MAX,
        forall|i: int| 0 <= i < extra.len() ==> is_block_line(#[trigger] extra[i]),
        forall|i: int| 0 <= i < tmt.len() ==> is_block_line(#[trigger] tmt[i]),
        stop.len() > 0,
        is_printable_ascii(stop[0]),
        is_printable_ascii(stop.last()),
        stop[0] != '#',
        extra.len() + tmt.len() + 4 == 50,
        lines(content) == seq!["# number: "@ + decimal(n), "# extra:"@] + commented(extra) + seq![
            "# tmt:"@,
        ] + commented(tmt) + seq![stop] + code,
    ensures
        metadata_outcome(content) == outcome_of(
            n,
            block_document(join(extra, "\n"@)),
            block_document(join(tmt, "\n"@)),
        ),
{
    let head = seq!["# number: "@ + decimal(n), "# extra:"@] + commented(extra) + seq!["# tmt:"@]
        + commented(tmt) + seq![stop];
    assert(lines(content).take(50) =~= head);
    assert(head_lines(content) =~= head) by {
        assert(lines(content).len() >= 50);
    }
    lemma_scan_whole(n, extra, tmt, stop);
}

/// What the lines of a whole head come to.
proof fn lemma_scan_whole(n: nat, extra: Seq<Seq<char>>, tmt: Seq<Seq<char>>, stop: Seq<char>)
    requires
        n <= u32::MAX,
        forall|i: int| 0 <= i < extra.len() ==> is_block_line(#[trigger] extra[i]),
        forall|i: int| 0 <= i < tmt.len() ==> is_block_line(#[trigger] tmt[i]),
        stop.len() > 0,
        is_printable_ascii(stop[0]),
        is_printable_ascii(stop.last()),
        stop[0] != '#',
    ensures
        scan_lines(
            seq!["# number: "@ + decimal(n), "# extra:"@] + commented(extra) + seq!["# tmt:"@]
                + commented(tmt) + seq![stop],
        ) == Some(Scan { number: Some(n), block: Block::Outside, extra, tmt }),
{
    let number = "# number: "@ + decimal(n);
    let one = seq![number];
    let two = seq![number, "# extra:"@];
    lemma_scan_heads(scan_start(), n, stop);
    assert(one.drop_last() =~= seq![]);
    assert(scan_lines(one.drop_last()) == Some(scan_start()));
    assert(one.last() == number);
    let st1 = Scan { number: Some(n), ..scan_start() };
    assert(scan_lines(one) == Some(st1));
    assert(two.drop_last() =~= one);
    lemma_scan_heads(st1, n, stop);
    let st2 = Scan { block: Block::Extra, ..st1 };
    assert(scan_lines(two) == Some(st2));
    lemma_scan_block(two, extra);
    let three = two + commented(extra);
    assert(st2.extra + extra =~= extra);
    let st3 = Scan { number: Some(n), block: Block::Extra, extra, tmt: seq![] };
    assert(scan_lines(three) == Some(st3));
    let four = three + seq!["# tmt:"@];
    assert(four.drop_last() =~= three);
    lemma_scan_heads(st3, n, stop);
    assert(scan_lines(four) == Some(Scan { block: Block::Tmt, ..st3 }));
    lemma_scan_block(four, tmt);
    let five = four + commented(tmt);
    assert(Seq::<Seq<char>>::empty() + tmt =~= tmt);
    let st5 = Scan { number: Some(n), block: Block::Tmt, extra, tmt };
    assert(scan_lines(five) == Some(st5));
    let six = five + seq![stop];
    assert(six.drop_last() =~= five);
    lemma_scan_heads(st5, n, stop);
}

/// A file of fewer than fifty lines is read whole: what its number and its blocks say is what counts.
pub proof fn law_short_metadata_is_read(
    content: Seq<char>,
    n: nat,
    extra: Seq<Seq<char>>,
    tmt: Seq<Seq<char>>,
    stop: Seq<char>,
)
    requires
        n <= u32::MAX,
        forall|i: int| 0 <= i < extra.len() ==> is_block_line(#[trigger] extra[i]),
        forall|i: int| 0 <= i < tmt.len() ==> is_block_line(#[trigger] tmt[i]),
        stop.len() > 0,
        is_printable_ascii(stop[0]),
        is_printable_ascii(stop.last()),
        stop[0] != '#',
        extra.len() + tmt.len() + 4 <= 50,
        lines(content) == seq!["# number: "@ + decimal(n), "# extra:"@] + commented(extra) + seq![
            "# tmt:"@,
        ] + commented(tmt) + seq![stop],
    ensures
        metadata_outcome(content) == outcome_of(
            n,
            block_document(join(extra, "\n"@)),
            block_document(join(tmt, "\n"@)),
        ),
{
    assert(head_lines(content) =~= lines(content));
    lemma_scan_whole(n, extra, tmt, stop);
}

/// Outside of a block a line that is no head says nothing; a number that is none is told of; a line
/// behind the fiftieth is not looked at.
pub proof fn law_other_lines_say_nothing(st: Scan, line: Seq<char>, bad: Seq<char>, content: Seq<char>)
    requires
        st.block == Block::Outside,
        line.len() > 0,
        is_printable_ascii(line[0]),
        is_printable_ascii(line.last()),
        !"# number:"@.is_prefix_of(line),
        line != "# extra:"@,
        line != "# tmt:"@,
        bad.len() > 0,
        is_printable_ascii(bad[0]),
        is_printable_ascii(bad.last()),
        bad[0] != '+',
        !('0' <= bad.last() && bad.last() <= '9'),
    ensures
        scan_line(st, line) == Some(st),
        scan_line(st, "# number: "@ + bad) is None,
        lines(content).len() <= 50 ==> head_lines(content) == lines(content),
        lines(content).len() > 50 ==> head_lines(content).len() == 50 && forall|i: int|
            0 <= i < 50 ==> head_lines(content)[i] == lines(content)[i],
{
    reveal_strlit("# number:");
    reveal_strlit("# number: ");
    let none: Seq<char> = seq![];
    law_trim(none, line, none);
    assert(none + line + none =~= line);
    let number = "# number: "@ + bad;
    law_trim(none, number, none);
    assert(none + number + none =~= number);
    assert("# number:"@ =~= number.subrange(0, 9));
    assert(number.skip(9) =~= seq![' '] + bad + none);
    law_trim(seq![' '], bad, none);
    assert(digit_value(bad.last(), 10) is None);
}

/// Documents are those of their blocks; a block without text is an empty mapping. An extra block that
/// is no YAML is told of first.
pub proof fn law_blocks_are_documents(n: nat, blank: Seq<char>, extra: Option<Yaml>, tmt: Option<Yaml>)
    requires
        is_blank(blank),
    ensures
        block_document(blank) == Some(Yaml::Mapping(seq![])),
        outcome_of(n, extra, tmt) == match (extra, tmt) {
            (Some(e), Some(t)) => MetadataOutcome::Found { number: n, extra: e, tmt: t },
            (None, _) => MetadataOutcome::BadExtra,
            (Some(_), None) => MetadataOutcome::BadTmt,
        },
{
    law_trim(blank, seq![], seq![]);
    assert(blank + seq![] + seq![] =~= blank);
}

/// What is told of metadata that cannot be read.
pub proof fn law_metadata_messages(block: String, e: serde_yaml::Error)
    ensures
        MetadataError::Number.text() == "Failed to parse number field"@,
        MetadataError::Extra(block, e).text() == "Failed to parse extra metadata YAML:\n"@ + block@,
        MetadataError::Tmt(block, e).text() == "Failed to parse tmt metadata YAML:\n"@ + block@,
{
}

} // verus!
