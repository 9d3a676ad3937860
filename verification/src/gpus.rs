//! The GPUs that a node announces.
//!
//! Names and figures come as comma-separated lists. Equal names may be summarized
//! with a count in front, as in `2x NVIDIA A100`.

use vstd::prelude::*;

use crate::text::{
    cells, cells_of, copy_range, find_char, index_of_char, nonempty, parse_number,
    parsed_number, parts, string_of, texts, trim, trimmed,
};

verus! {

/// One GPU. Rates are double precision numbers, held as their bit patterns.
#[derive(Debug)]
pub struct GpuEntry {
    pub name: String,
    pub vram_bytes: u64,
    pub reserved_bytes: Option<u64>,
    pub mem_bandwidth_gbps: Option<u64>,
    pub compute_tflops_fp32: Option<u64>,
    pub compute_tflops_fp16: Option<u64>,
}

/// The place of the sign between count and name: the first multiplication sign,
/// or else the first small x, or else the first capital one.
pub open spec fn count_sign(part: Seq<char>) -> Option<int> {
    match index_of_char(part, '\u{d7}', 0) {
        Some(i) => Some(i),
        None => match index_of_char(part, 'x', 0) {
            Some(i) => Some(i),
            None => index_of_char(part, 'X', 0),
        },
    }
}

/// How many GPUs a part of the list stands for, if it has a positive count in
/// front.
pub open spec fn part_count(part: Seq<char>) -> Option<nat> {
    match count_sign(part) {
        Some(i) => match parsed_number(trimmed(part.take(i)), usize::MAX as nat) {
            Some(n) => if n > 0 {
                Some(n)
            } else {
                None
            },
            None => None,
        },
        None => None,
    }
}

/// The names that a part of the list stands for.
pub open spec fn part_names(part: Seq<char>) -> Seq<Seq<char>> {
    match part_count(part) {
        Some(n) => Seq::new(n, |k: int| trimmed(part.skip(count_sign(part)->0 + 1))),
        None => seq![part],
    }
}

/// The names that the parts stand for, in order.
pub open spec fn expanded(list: Seq<Seq<char>>) -> Seq<Seq<char>>
    decreases list.len(),
{
    if list.len() == 0 {
        Seq::empty()
    } else {
        expanded(list.drop_last()) + part_names(list.last())
    }
}

/// How many GPUs the parts stand for.
pub open spec fn total_count(list: Seq<Seq<char>>) -> nat
    decreases list.len(),
{
    if list.len() == 0 {
        0
    } else {
        total_count(list.drop_last()) + (match part_count(list.last()) {
            Some(n) => n,
            None => 1,
        })
    }
}

/// The parts of a name list that are not blank.
pub open spec fn name_parts(gpu_name: Option<Seq<char>>) -> Seq<Seq<char>> {
    match gpu_name {
        Some(raw) => nonempty(cells(raw)),
        None => Seq::empty(),
    }
}

/// A summarized list and its expansion agree in how many GPUs there are.
pub proof fn law_expansion_has_the_counted_length(list: Seq<Seq<char>>)
    ensures
        expanded(list).len() == total_count(list),
    decreases list.len(),
{
    if list.len() > 0 {
        law_expansion_has_the_counted_length(list.drop_last());
    }
}

/// The content of an optional text.
pub open spec fn opt_str(s: Option<&str>) -> Option<Seq<char>> {
    match s {
        Some(s) => Some(s@),
        None => None,
    }
}

/// The cells of a column, in order and without the space around them; none if there
/// is no column.
pub fn column_cells(column: Option<&str>) -> (r: Vec<String>)
    ensures
        texts(r@) == (match column {
            Some(c) => cells(c@),
            None => Seq::empty(),
        }),
{
    let mut r: Vec<String> = Vec::new();
    if let Some(c) = column {
        let list = cells_of(c);
        let mut i: usize = 0;
        while i < list.len()
            invariant
                i <= list.len(),
                r.len() == i,
                forall|j: int| 0 <= j < i ==> (#[trigger] r@[j])@ == list@[j]@,
            decreases list.len() - i,
        {
            r.push(string_of(list[i].as_slice()));
            i = i + 1;
        }
        assert(texts(r@) =~= parts(list@));
    } else {
        assert(texts(r@) =~= Seq::empty());
    }
    r
}

/// Finds the sign between count and name.
fn find_count_sign(part: &[char]) -> (r: Option<usize>)
    ensures
        match r {
            Some(i) => i < part.len() && count_sign(part@) == Some(i as int),
            None => count_sign(part@) is None,
        },
{
    match find_char(part, '\u{d7}') {
        Some(i) => Some(i),
        None => match find_char(part, 'x') {
            Some(i) => Some(i),
            None => find_char(part, 'X'),
        },
    }
}

/// Reads the count in front of a name, with the place of the sign.
fn read_count(part: &[char]) -> (r: Option<(usize, usize)>)
    ensures
        match r {
            Some((n, i)) => {
                &&& i < part.len()
                &&& count_sign(part@) == Some(i as int)
                &&& part_count(part@) == Some(n as nat)
            },
            None => part_count(part@) is None,
        },
{
    match find_count_sign(part) {
        Some(i) => {
            let head = copy_range(part, 0, i);
            assert(head@ =~= part@.take(i as int));
            let digits = trim(head.as_slice());
            match parse_number(digits.as_slice(), usize::MAX as u64) {
                Some(n) => if n > 0 {
                    Some((n as usize, i))
                } else {
                    None
                },
                None => None,
            }
        },
        None => None,
    }
}

/// The parts of a name list that are not blank.
fn parts_of(gpu_name: Option<&str>) -> (r: Vec<Vec<char>>)
    ensures
        parts(r@) == name_parts(opt_str(gpu_name)),
{
    let mut r: Vec<Vec<char>> = Vec::new();
    match gpu_name {
        Some(raw) => {
            let mut all = cells_of(raw);
            let ghost list = parts(all@);
            let mut i: usize = 0;
            assert(parts(r@) =~= nonempty(list.take(0)));
            while i < all.len()
                invariant
                    i <= all.len(),
                    list == parts(all@),
                    parts(r@) == nonempty(list.take(i as int)),
                decreases all.len() - i,
            {
                proof {
                    assert(list.take(i + 1).drop_last() =~= list.take(i as int));
                    assert(list.take(i + 1).last() == all@[i as int]@);
                }
                if all[i].len() > 0 {
                    let ghost before = r@;
                    let piece = copy_range(all[i].as_slice(), 0, all[i].len());
                    assert(piece@ =~= all@[i as int]@);
                    r.push(piece);
                    assert(parts(r@) =~= parts(before).push(piece@));
                }
                i = i + 1;
            }
            assert(list.take(i as int) =~= list);
        },
        None => {
            assert(parts(r@) =~= Seq::empty());
        },
    }
    r
}

/// How many GPUs a name list stands for.
pub fn inferred_gpu_name_count(gpu_name: Option<&str>) -> (n: usize)
    requires
        total_count(name_parts(opt_str(gpu_name))) <= usize::MAX,
    ensures
        n == total_count(name_parts(opt_str(gpu_name))),
{
    let list = parts_of(gpu_name);
    let ghost all = parts(list@);
    let mut total: usize = 0;
    let mut i: usize = 0;
    while i < list.len()
        invariant
            i <= list.len(),
            all == parts(list@),
            total_count(all) <= usize::MAX,
            total == total_count(all.take(i as int)),
        decreases list.len() - i,
    {
        proof {
            assert(all.take(i + 1).drop_last() =~= all.take(i as int));
            assert(all.take(i + 1).last() == list@[i as int]@);
            lemma_total_grows(all, i + 1);
        }
        let n: usize = match read_count(list[i].as_slice()) {
            Some((n, _)) => n,
            None => 1,
        };
        total = total + n;
        i = i + 1;
    }
    assert(all.take(i as int) =~= all);
    total
}

proof fn lemma_total_grows(list: Seq<Seq<char>>, i: int)
    requires
        0 <= i <= list.len(),
    ensures
        total_count(list.take(i)) <= total_count(list),
    decreases list.len() - i,
{
    if i < list.len() {
        lemma_total_grows(list, i + 1);
        assert(list.take(i + 1).drop_last() =~= list.take(i));
    } else {
        assert(list.take(i) =~= list);
    }
}

/// The names that a list stands for.
pub fn expand_gpu_names(gpu_name: Option<&str>) -> (r: Vec<String>)
    ensures
        texts(r@) == expanded(name_parts(opt_str(gpu_name))),
{
    let list = parts_of(gpu_name);
    let ghost all = parts(list@);
    let mut r: Vec<String> = Vec::new();
    let mut i: usize = 0;
    assert(texts(r@) =~= expanded(all.take(0)));
    while i < list.len()
        invariant
            i <= list.len(),
            all == parts(list@),
            texts(r@) == expanded(all.take(i as int)),
        decreases list.len() - i,
    {
        let part = list[i].as_slice();
        proof {
            assert(all.take(i + 1).drop_last() =~= all.take(i as int));
            assert(all.take(i + 1).last() == part@);
        }
        let ghost before = texts(r@);
        match read_count(part) {
            Some((n, sign)) => {
                let tail = copy_range(part, sign + 1, part.len());
                assert(tail@ =~= part@.skip(sign + 1));
                let name = trim(tail.as_slice());
                let ghost names = part_names(part@);
                let mut k: usize = 0;
                assert(texts(r@) =~= before + names.take(0));
                while k < n
                    invariant
                        k <= n,
                        names.len() == n,
                        forall|j: int| 0 <= j < n ==> #[trigger] names[j] == name@,
                        texts(r@) == before + names.take(k as int),
                    decreases n - k,
                {
                    let ghost was = r@;
                    let one = string_of(name.as_slice());
                    r.push(one);
                    assert(texts(r@) =~= texts(was).push(one@));
                    assert(texts(r@) =~= before + names.take(k + 1));
                    k = k + 1;
                }
                assert(names.take(k as int) =~= names);
            },
            None => {
                let ghost was = r@;
                let one = string_of(part);
                r.push(one);
                assert(texts(r@) =~= texts(was).push(one@));
                assert(texts(r@) =~= before + part_names(part@));
            },
        }
        i = i + 1;
    }
    assert(all.take(i as int) =~= all);
    r
}

/// The numbers of a comma-separated column; a cell that is no number gives none.
pub open spec fn number_column(column: Option<Seq<char>>) -> Seq<Option<u64>> {
    match column {
        Some(s) => cells(s).map_values(
            |cell: Seq<char>|
                match parsed_number(cell, u64::MAX as nat) {
                    Some(n) => Some(n as u64),
                    None => None,
                },
        ),
        None => Seq::empty(),
    }
}

/// Reads a column of numbers.
fn read_column(column: Option<&str>) -> (r: Vec<Option<u64>>)
    ensures
        r@ == number_column(opt_str(column)),
{
    let mut r: Vec<Option<u64>> = Vec::new();
    match column {
        Some(s) => {
            let list = cells_of(s);
            let mut i: usize = 0;
            while i < list.len()
                invariant
                    i <= list.len(),
                    parts(list@) == cells(s@),
                    r.len() == i,
                    forall|j: int|
                        0 <= j < i ==> #[trigger] r@[j] == number_column(Some(s@))[j],
                decreases list.len() - i,
            {
                assert(cells(s@)[i as int] == list@[i as int]@) by {
                    assert(parts(list@)[i as int] == list@[i as int]@);
                }
                let cell = parse_number(list[i].as_slice(), u64::MAX);
                r.push(cell);
                i = i + 1;
            }
            assert(parts(list@).len() == list@.len());
            assert(r@ =~= number_column(Some(s@)));
        },
        None => {
            assert(r@ =~= Seq::empty());
        },
    }
    r
}

/// The cell of a column for the GPU with the given number.
pub open spec fn cell_at(column: Seq<Option<u64>>, i: int) -> Option<u64> {
    if 0 <= i < column.len() {
        column[i]
    } else {
        None
    }
}

/// The cell of a column.
fn read_cell(column: &[Option<u64>], i: usize) -> (r: Option<u64>)
    ensures
        r == cell_at(column@, i as int),
{
    if i < column.len() {
        column[i]
    } else {
        None
    }
}

/// A GPU list that agrees with the announced names and columns.
pub open spec fn is_gpu_list(
    r: Seq<GpuEntry>,
    names: Seq<Seq<char>>,
    vram: Seq<Option<u64>>,
    reserved: Seq<Option<u64>>,
    bandwidth: Seq<Option<u64>>,
    fp32: Seq<Option<u64>>,
    fp16: Seq<Option<u64>>,
) -> bool {
    &&& r.len() == names.len()
    &&& forall|i: int|
        0 <= i < r.len() ==> {
            &&& (#[trigger] r[i]).name@ == names[i]
            &&& r[i].vram_bytes == (match cell_at(vram, i) {
                Some(n) => n,
                None => 0,
            })
            &&& r[i].reserved_bytes == cell_at(reserved, i)
            &&& r[i].mem_bandwidth_gbps == cell_at(bandwidth, i)
            &&& r[i].compute_tflops_fp32 == cell_at(fp32, i)
            &&& r[i].compute_tflops_fp16 == cell_at(fp16, i)
        }
}

/// Lists the GPUs. Every column is read by the GPU's number, so a missing or
/// unreadable cell does not shift the others; names that are blank are left out.
pub fn build_gpus(
    gpu_name: Option<&str>,
    gpu_vram: Option<&str>,
    gpu_reserved_bytes: Option<&str>,
    gpu_mem_bandwidth: &[Option<u64>],
    gpu_compute_tflops_fp32: &[Option<u64>],
    gpu_compute_tflops_fp16: &[Option<u64>],
) -> (r: Vec<GpuEntry>)
    ensures
        is_gpu_list(
            r@,
            nonempty(expanded(name_parts(opt_str(gpu_name)))),
            number_column(opt_str(gpu_vram)),
            number_column(opt_str(gpu_reserved_bytes)),
            gpu_mem_bandwidth@,
            gpu_compute_tflops_fp32@,
            gpu_compute_tflops_fp16@,
        ),
{
    let vram = read_column(gpu_vram);
    let reserved = read_column(gpu_reserved_bytes);
    let names = expand_gpu_names(gpu_name);
    let ghost all = texts(names@);
    let mut r: Vec<GpuEntry> = Vec::new();
    let mut i: usize = 0;
    while i < names.len()
        invariant
            i <= names.len(),
            all == texts(names@),
            r.len() <= i,
            is_gpu_list(
                r@,
                nonempty(all.take(i as int)),
                vram@,
                reserved@,
                gpu_mem_bandwidth@,
                gpu_compute_tflops_fp32@,
                gpu_compute_tflops_fp16@,
            ),
        decreases names.len() - i,
    {
        proof {
            assert(all.take(i + 1).drop_last() =~= all.take(i as int));
            assert(all.take(i + 1).last() == names@[i as int]@);
        }
        if !names[i].as_str().is_empty() {
            let k: usize = r.len();
            let vram_bytes = match read_cell(vram.as_slice(), k) {
                Some(n) => n,
                None => 0,
            };
            r.push(
                GpuEntry {
                    name: names[i].clone(),
                    vram_bytes,
                    reserved_bytes: read_cell(reserved.as_slice(), k),
                    mem_bandwidth_gbps: read_cell(gpu_mem_bandwidth, k),
                    compute_tflops_fp32: read_cell(gpu_compute_tflops_fp32, k),
                    compute_tflops_fp16: read_cell(gpu_compute_tflops_fp16, k),
                },
            );
        }
        i = i + 1;
    }
    assert(all.take(i as int) =~= all);
    r
}

/// A count, a sign and a name stand for that many GPUs of that name, and a part without
/// any of the signs for itself.
pub proof fn law_counted_part(n: nat, sign: char, name: Seq<char>, part: Seq<char>)
    requires
        0 < n <= usize::MAX,
        sign == '\u{d7}' || ((sign == 'x' || sign == 'X') && !name.contains('\u{d7}')),
        sign == 'X' ==> !name.contains('x'),
        !part.contains('\u{d7}') && !part.contains('x') && !part.contains('X'),
    ensures
        part_names(crate::text::decimal(n).push(sign) + name).len() == n,
        forall|k: int|
            0 <= k < n ==> #[trigger] part_names(crate::text::decimal(n).push(sign) + name)[k]
                == trimmed(name),
        part_names(part) == seq![part],
{
    let digits = crate::text::decimal(n);
    let whole = digits.push(sign) + name;
    crate::text::law_decimal_reads_back(n, usize::MAX as nat);
    crate::text::lemma_decimal_has_no_space(n);
    crate::text::lemma_trimmed_already(digits);
    crate::text::law_first_place(whole, '\u{d7}', 0);
    crate::text::law_first_place(whole, 'x', 0);
    crate::text::law_first_place(whole, 'X', 0);
    crate::text::lemma_decimal_is_digits(n);
    assert(whole[digits.len() as int] == sign);
    assert forall|j: int| 0 <= j < whole.len() && j != digits.len() implies whole[j] == if j
        < digits.len() {
        digits[j]
    } else {
        name[j - digits.len() - 1]
    } by {}
    assert forall|j: int| 0 <= j < digits.len() implies #[trigger] whole[j] != '\u{d7}' && whole[j]
        != 'x' && whole[j] != 'X' by {
        assert(crate::text::is_digit(digits[j]));
    }
    assert forall|j: int|
        digits.len() < j < whole.len() && !name.contains('\u{d7}') implies #[trigger] whole[j]
        != '\u{d7}' by {
        assert(name.contains(name[j - digits.len() - 1]));
    }
    assert forall|j: int|
        digits.len() < j < whole.len() && !name.contains('x') implies #[trigger] whole[j]
        != 'x' by {
        assert(name.contains(name[j - digits.len() - 1]));
    }
    assert(count_sign(whole) == Some(digits.len() as int));
    assert(whole.take(digits.len() as int) =~= digits);
    assert(whole.skip(digits.len() as int + 1) =~= name);
    crate::text::law_first_place(part, '\u{d7}', 0);
    crate::text::law_first_place(part, 'x', 0);
    crate::text::law_first_place(part, 'X', 0);
    assert(count_sign(part) is None);
}

/// Each part of a list adds the names that it stands for behind the others.
pub proof fn law_expansion_goes_part_by_part(list: Seq<Seq<char>>, part: Seq<char>)
    ensures
        expanded(list.push(part)) == expanded(list) + part_names(part),
        expanded(Seq::empty()).len() == 0,
        total_count(list.push(part)) == total_count(list) + part_names(part).len(),
{
    assert(list.push(part).drop_last() =~= list);
}

/// Every figure of a GPU comes from the cell of its own column with the number of the
/// GPU. One that is missing leaves the others where they are.
pub proof fn law_figures_come_by_number(
    r: Seq<GpuEntry>,
    names: Seq<Seq<char>>,
    vram: Seq<Option<u64>>,
    reserved: Seq<Option<u64>>,
    bandwidth: Seq<Option<u64>>,
    fp32: Seq<Option<u64>>,
    fp16: Seq<Option<u64>>,
    i: int,
)
    requires
        is_gpu_list(r, names, vram, reserved, bandwidth, fp32, fp16),
        0 <= i < names.len(),
    ensures
        r.len() == names.len(),
        r[i].name@ == names[i],
        i < vram.len() && vram[i] is Some ==> vram[i] == Some(r[i].vram_bytes),
        i >= vram.len() || vram[i] is None ==> r[i].vram_bytes == 0,
        i < reserved.len() ==> r[i].reserved_bytes == reserved[i],
        i < bandwidth.len() ==> r[i].mem_bandwidth_gbps == bandwidth[i],
        i < fp32.len() ==> r[i].compute_tflops_fp32 == fp32[i],
        i < fp16.len() ==> r[i].compute_tflops_fp16 == fp16[i],
        i >= reserved.len() ==> r[i].reserved_bytes is None,
        i >= bandwidth.len() ==> r[i].mem_bandwidth_gbps is None,
        i >= fp32.len() ==> r[i].compute_tflops_fp32 is None,
        i >= fp16.len() ==> r[i].compute_tflops_fp16 is None,
{
}

/// A column has a number for each of its cells that is one.
pub proof fn law_number_column(column: Seq<char>, i: int, n: u64)
    requires
        0 <= i < cells(column).len(),
    ensures
        number_column(Some(column)).len() == cells(column).len(),
        cells(column)[i] == crate::text::decimal(n as nat) ==> number_column(Some(column))[i]
            == Some(n),
        cells(column)[i].len() == 0 ==> number_column(Some(column))[i] is None,
        number_column(None).len() == 0,
{
    crate::text::law_decimal_reads_back(n as nat, u64::MAX as nat);
}

/// Space between the count and the sign does not matter.
pub proof fn law_count_may_be_spaced(n: nat, gap: Seq<char>, name: Seq<char>)
    requires
        0 < n <= usize::MAX,
        forall|i: int| 0 <= i < gap.len() ==> crate::text::is_space(#[trigger] gap[i]),
    ensures
        part_names(crate::text::decimal(n) + gap + (seq!['\u{d7}'] + name)) == Seq::new(
            n,
            |k: int| trimmed(name),
        ),
{
    let digits = crate::text::decimal(n);
    let front = digits + gap;
    let whole = front + (seq!['\u{d7}'] + name);
    let none = Seq::<char>::empty();
    crate::text::law_decimal_reads_back(n, usize::MAX as nat);
    crate::text::lemma_decimal_has_no_space(n);
    crate::text::lemma_decimal_is_digits(n);
    crate::text::law_trimmed_between(none, digits, gap);
    assert(none + digits + gap =~= front);
    crate::text::law_first_place(whole, '\u{d7}', 0);
    assert(whole[front.len() as int] == '\u{d7}');
    assert forall|j: int| 0 <= j < front.len() implies #[trigger] whole[j] != '\u{d7}' by {
        if j < digits.len() {
            assert(crate::text::is_digit(digits[j]));
            assert(whole[j] == digits[j]);
        } else {
            assert(crate::text::is_space(gap[j - digits.len()]));
            assert(whole[j] == gap[j - digits.len()]);
        }
    }
    assert(count_sign(whole) == Some(front.len() as int));
    assert(whole.take(front.len() as int) =~= front);
    assert(whole.skip(front.len() as int + 1) =~= name);
    assert(part_names(whole) =~= Seq::new(n, |k: int| trimmed(name)));
}

/// Every cell of a name list that is not blank is a part, and no other is.
pub proof fn law_blank_parts_do_not_count(raw: Seq<char>, cell: Seq<char>)
    ensures
        cell.len() > 0 ==> (name_parts(Some(raw)).contains(cell) <==> cells(raw).contains(cell)),
        !name_parts(Some(raw)).contains(Seq::empty()),
        name_parts(None).len() == 0,
{
    crate::text::law_nonempty_items_stay(cells(raw), cell);
}

} // verus!
