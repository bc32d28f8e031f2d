//! The peer list file: one peer to the line, as `host:port`.
//!
//! Lines are parted by line feeds. Blanks around an entry do not count,
//! and a line that holds nothing, or that begins with `#`, is no entry.

use vstd::prelude::*;

verus! {

/// A space, a tab or a carriage return.
pub open spec fn is_blank(b: u8) -> bool {
    b == 32 || b == 9 || b == 13
}

/// Where the line that begins at `from` ends: at the next line feed, or
/// at the end of the data.
pub open spec fn line_end(data: Seq<u8>, from: int) -> int
    decreases data.len() - from,
{
    if from >= data.len() {
        data.len() as int
    } else if data[from] == 10 {
        from
    } else {
        line_end(data, from + 1)
    }
}

/// A line without the blanks that it begins with.
pub open spec fn trim_start(line: Seq<u8>) -> Seq<u8>
    decreases line.len(),
{
    if line.len() > 0 && is_blank(line[0]) {
        trim_start(line.drop_first())
    } else {
        line
    }
}

/// A line without the blanks that it ends with.
pub open spec fn trim_end(line: Seq<u8>) -> Seq<u8>
    decreases line.len(),
{
    if line.len() > 0 && is_blank(line.last()) {
        trim_end(line.drop_last())
    } else {
        line
    }
}

/// The entry that a line holds, if it holds one.
pub open spec fn entry_of(line: Seq<u8>) -> Option<Seq<u8>> {
    let t = trim_end(trim_start(line));
    if t.len() == 0 || t[0] == 35 {
        None
    } else {
        Some(t)
    }
}

/// The entries of the lines that begin at `from` and after, in order.
pub open spec fn entries_from(data: Seq<u8>, from: int) -> Seq<Seq<u8>>
    decreases data.len() - from,
{
    if from < 0 || from > data.len() {
        Seq::empty()
    } else {
        let end = line_end(data, from);
        let rest = if from <= end < data.len() {
            entries_from(data, end + 1)
        } else {
            Seq::empty()
        };
        match entry_of(data.subrange(from, end)) {
            Some(e) => seq![e] + rest,
            None => rest,
        }
    }
}

proof fn lemma_line_end(data: Seq<u8>, from: int)
    requires
        0 <= from <= data.len(),
    ensures
        from <= line_end(data, from) <= data.len(),
        line_end(data, from) < data.len() ==> data[line_end(data, from)] == 10,
        forall|j: int| from <= j < line_end(data, from) ==> data[j] != 10,
    decreases data.len() - from,
{
    if from < data.len() && data[from] != 10 {
        lemma_line_end(data, from + 1);
    }
}

proof fn lemma_line_end_is(data: Seq<u8>, from: int, end: int)
    requires
        0 <= from <= end <= data.len(),
        forall|j: int| from <= j < end ==> data[j] != 10,
        end < data.len() ==> data[end] == 10,
    ensures
        line_end(data, from) == end,
    decreases end - from,
{
    if from < end {
        lemma_line_end_is(data, from + 1, end);
    }
}

proof fn lemma_trim_start(line: Seq<u8>, k: int)
    requires
        0 <= k <= line.len(),
        forall|j: int| 0 <= j < k ==> is_blank(line[j]),
        k < line.len() ==> !is_blank(line[k]),
    ensures
        trim_start(line) == line.subrange(k, line.len() as int),
    decreases k,
{
    if k == 0 {
        assert(line.subrange(0, line.len() as int) =~= line);
    } else {
        let rest = line.drop_first();
        assert forall|j: int| 0 <= j < k - 1 implies is_blank(rest[j]) by {
            assert(rest[j] == line[j + 1]);
        }
        lemma_trim_start(rest, k - 1);
        assert(rest.subrange(k - 1, rest.len() as int) =~= line.subrange(k, line.len() as int));
    }
}

proof fn lemma_trim_end(line: Seq<u8>, k: int)
    requires
        0 <= k <= line.len(),
        forall|j: int| k <= j < line.len() ==> is_blank(line[j]),
        k > 0 ==> !is_blank(line[k - 1]),
    ensures
        trim_end(line) == line.subrange(0, k),
    decreases line.len() - k,
{
    if k == line.len() {
        assert(line.subrange(0, k) =~= line);
    } else {
        let rest = line.drop_last();
        lemma_trim_end(rest, k);
        assert(rest.subrange(0, k) =~= line.subrange(0, k));
    }
}

/// The views of a list of byte strings.
pub open spec fn byte_views(v: Seq<Vec<u8>>) -> Seq<Seq<u8>> {
    v.map_values(|e: Vec<u8>| e@)
}

/// The entries of a peer list file, in the order of their lines.
pub fn peer_entries(data: &[u8]) -> (r: Vec<Vec<u8>>)
    ensures
        byte_views(r@) == entries_from(data@, 0),
{
    let mut out: Vec<Vec<u8>> = Vec::new();
    let mut pos: usize = 0;
    let mut done = false;
    assert(byte_views(out@) + entries_from(data@, 0) =~= entries_from(data@, 0));
    while !done
        invariant
            pos <= data.len(),
            entries_from(data@, 0) == byte_views(out@) + if done {
                Seq::<Seq<u8>>::empty()
            } else {
                entries_from(data@, pos as int)
            },
        decreases data.len() - pos, (if done { 0int } else { 1int }),
    {
        let mut end: usize = pos;
        while end < data.len() && data[end] != 10
            invariant
                pos <= end <= data.len(),
                forall|j: int| pos <= j < end ==> data@[j] != 10,
            decreases data.len() - end,
        {
            end += 1;
        }
        let mut first: usize = pos;
        while first < end && (data[first] == 32 || data[first] == 9 || data[first] == 13)
            invariant
                pos <= first <= end <= data.len(),
                forall|j: int| pos <= j < first ==> is_blank(data@[j]),
            decreases end - first,
        {
            first += 1;
        }
        let mut last: usize = end;
        while last > first && (data[last - 1] == 32 || data[last - 1] == 9 || data[last - 1] == 13)
            invariant
                first <= last <= end <= data.len(),
                forall|j: int| last <= j < end ==> is_blank(data@[j]),
            decreases last - first,
        {
            last -= 1;
        }
        let ghost line = data@.subrange(pos as int, end as int);
        let ghost before = byte_views(out@);
        proof {
            lemma_line_end_is(data@, pos as int, end as int);
            assert forall|j: int| 0 <= j < first - pos implies is_blank(line[j]) by {
                assert(line[j] == data@[pos + j]);
            }
            lemma_trim_start(line, first - pos);
            let started = line.subrange(first - pos, line.len() as int);
            assert(started =~= data@.subrange(first as int, end as int));
            assert forall|j: int| last - first <= j < started.len() implies is_blank(started[j]) by {
                assert(started[j] == data@[first + j]);
            }
            if last > first {
                assert(started[last - first - 1] == data@[last - 1]);
            }
            lemma_trim_end(started, last - first);
            assert(started.subrange(0, last - first) =~= data@.subrange(first as int, last as int));
            assert(trim_end(trim_start(line)) == data@.subrange(first as int, last as int));
        }
        if last > first && data[first] != 35 {
            let entry = vstd::slice::slice_to_vec(vstd::slice::slice_subrange(data, first, last));
            assert(entry@[0] == data@[first as int]);
            out.push(entry);
            assert(byte_views(out@) =~= before.push(entry@));
        } else {
            proof {
                if last > first {
                    assert(data@.subrange(first as int, last as int)[0] == data@[first as int]);
                }
            }
        }
        proof {
            let rest = if end < data.len() {
                entries_from(data@, end + 1)
            } else {
                Seq::<Seq<u8>>::empty()
            };
            match entry_of(line) {
                Some(e) => {
                    assert(before + (seq![e] + rest) =~= before.push(e) + rest);
                },
                None => {},
            }
        }
        if end < data.len() {
            pos = end + 1;
        } else {
            done = true;
        }
    }
    assert(byte_views(out@) + Seq::<Seq<u8>>::empty() =~= byte_views(out@));
    out
}

} // verus!
