//! The directory of listed companies: the number of a stock, the short name
//! of its company, and the label of the sector that the company belongs to.

use crate::sorting::{Sortable, is_sorted, stable_sort, stable_sorted};
use crate::text::{
    all_digits, chars_of, digits_value, lemma_text_order_total, lemma_text_order_transitive,
    read_digits, text_comes_not_after, text_not_after, trimmed, trimmed_text,
};
use std::collections::HashMap;
use vstd::prelude::*;
use vstd::string::StringExecFns;

verus! {

/// The label of the sector with the number `code`, for the sectors that the
/// exchange numbers.
pub open spec fn industry_label(code: u64) -> Option<Seq<char>> {
    if code == 1 {
        Some("水泥工業"@)
    } else if code == 2 {
        Some("食品工業"@)
    } else if code == 3 {
        Some("塑膠工業"@)
    } else if code == 4 {
        Some("紡織纖維"@)
    } else if code == 5 {
        Some("電機機械"@)
    } else if code == 6 {
        Some("電器電纜"@)
    } else if code == 8 {
        Some("玻璃陶瓷"@)
    } else if code == 9 {
        Some("造紙工業"@)
    } else if code == 10 {
        Some("鋼鐵工業"@)
    } else if code == 11 {
        Some("橡膠工業"@)
    } else if code == 12 {
        Some("汽車工業"@)
    } else if code == 13 {
        Some("電子工業"@)
    } else if code == 14 {
        Some("建材營造業"@)
    } else if code == 15 {
        Some("航運業"@)
    } else if code == 16 {
        Some("觀光餐旅"@)
    } else if code == 17 {
        Some("金融保險業"@)
    } else if code == 18 {
        Some("貿易百貨業"@)
    } else if code == 19 {
        Some("綜合"@)
    } else if code == 20 {
        Some("其他業"@)
    } else if code == 21 {
        Some("化學工業"@)
    } else if code == 22 {
        Some("生技醫療業"@)
    } else if code == 23 {
        Some("油電燃氣業"@)
    } else if code == 24 {
        Some("半導體業"@)
    } else if code == 25 {
        Some("電腦及週邊設備業"@)
    } else if code == 26 {
        Some("光電業"@)
    } else if code == 27 {
        Some("通信網路業"@)
    } else if code == 28 {
        Some("電子零組件業"@)
    } else if code == 29 {
        Some("電子通路業"@)
    } else if code == 30 {
        Some("資訊服務業"@)
    } else if code == 31 {
        Some("其他電子業"@)
    } else if code == 32 {
        Some("文化創意業"@)
    } else if code == 33 {
        Some("農業科技業"@)
    } else if code == 34 {
        Some("電子商務"@)
    } else if code == 35 {
        Some("綠能環保"@)
    } else if code == 36 {
        Some("數位雲端"@)
    } else if code == 37 {
        Some("運動休閒"@)
    } else if code == 38 {
        Some("居家生活"@)
    } else {
        None
    }
}

/// The label shown for a company whose sector has no label.
pub open spec fn unknown_industry() -> Seq<char> {
    "未知產業"@
}

/// The number of the sector of the financial and insurance companies.
pub const FINANCE_AND_INSURANCE: u64 = 17;

/// The number that a sector code writes: the code is two digits.
pub open spec fn industry_code_reading(text: Seq<char>) -> Option<u64> {
    if text.len() == 2 && all_digits(text) {
        Some(digits_value(text) as u64)
    } else {
        None
    }
}

/// Reads a sector code of two digits.
pub fn industry_code(text: &str) -> (r: Option<u64>)
    ensures
        r == industry_code_reading(text@),
{
    let chars = chars_of(text);
    if chars.len() != 2 {
        return None;
    }
    proof {
        assert(chars@.subrange(0, 2) =~= chars@);
        if all_digits(chars@) {
            crate::text::lemma_digits_are_fixed_text(chars@);
            crate::calendar::lemma_pow10_small();
        }
    }
    read_digits(&chars, 0, 2)
}

/// `table` gives each numbered sector its label, and holds nothing else.
pub open spec fn is_industry_table(table: Map<u64, &'static str>) -> bool {
    &&& forall|code: u64| table.contains_key(code) <==> industry_label(code) is Some
    &&& forall|code: u64|
        table.contains_key(code) ==> Some((#[trigger] table[code])@) == industry_label(code)
}

/// The table from the number of a sector to its label.
pub fn build_industry_map() -> (m: HashMap<u64, &'static str>)
    ensures
        is_industry_table(m@),
{
    broadcast use vstd::std_specs::hash::group_hash_axioms;

    let mut m: HashMap<u64, &'static str> = HashMap::new();
    m.insert(1, "水泥工業");
    m.insert(2, "食品工業");
    m.insert(3, "塑膠工業");
    m.insert(4, "紡織纖維");
    m.insert(5, "電機機械");
    m.insert(6, "電器電纜");
    m.insert(8, "玻璃陶瓷");
    m.insert(9, "造紙工業");
    m.insert(10, "鋼鐵工業");
    m.insert(11, "橡膠工業");
    m.insert(12, "汽車工業");
    m.insert(13, "電子工業");
    m.insert(14, "建材營造業");
    m.insert(15, "航運業");
    m.insert(16, "觀光餐旅");
    m.insert(17, "金融保險業");
    m.insert(18, "貿易百貨業");
    m.insert(19, "綜合");
    m.insert(20, "其他業");
    m.insert(21, "化學工業");
    m.insert(22, "生技醫療業");
    m.insert(23, "油電燃氣業");
    m.insert(24, "半導體業");
    m.insert(25, "電腦及週邊設備業");
    m.insert(26, "光電業");
    m.insert(27, "通信網路業");
    m.insert(28, "電子零組件業");
    m.insert(29, "電子通路業");
    m.insert(30, "資訊服務業");
    m.insert(31, "其他電子業");
    m.insert(32, "文化創意業");
    m.insert(33, "農業科技業");
    m.insert(34, "電子商務");
    m.insert(35, "綠能環保");
    m.insert(36, "數位雲端");
    m.insert(37, "運動休閒");
    m.insert(38, "居家生活");
    m
}

/// One listed company.
#[derive(Debug)]
pub struct CompanyInfo {
    /// The number of the stock.
    pub stock_no: String,
    /// The short name of the company.
    pub name: String,
    /// The code of its sector: two digits.
    pub industry: String,
}

impl Clone for CompanyInfo {
    fn clone(&self) -> (r: Self)
        ensures
            r == *self,
    {
        CompanyInfo {
            stock_no: self.stock_no.clone(),
            name: self.name.clone(),
            industry: self.industry.clone(),
        }
    }
}

impl Sortable for CompanyInfo {
    /// Companies are ordered by the numbers of their stocks, as texts.
    open spec fn not_after(&self, other: &Self) -> bool {
        text_not_after(self.stock_no@, other.stock_no@)
    }

    proof fn lemma_order(a: &Self, b: &Self, c: &Self) {
        lemma_text_order_total(a.stock_no@, b.stock_no@);
        if text_not_after(a.stock_no@, b.stock_no@) && text_not_after(b.stock_no@, c.stock_no@) {
            lemma_text_order_transitive(a.stock_no@, b.stock_no@, c.stock_no@);
        }
    }

    fn comes_not_after(&self, other: &Self) -> (b: bool) {
        text_comes_not_after(self.stock_no.as_str(), other.stock_no.as_str())
    }
}

/// Some text of `list` is `text`.
pub open spec fn lists(list: Seq<String>, text: Seq<char>) -> bool {
    exists|i: int| 0 <= i < list.len() && (#[trigger] list[i])@ == text
}

/// Whether some text of `list` is `text`.
pub fn is_listed(list: &Vec<String>, text: &String) -> (b: bool)
    ensures
        b == lists(list@, text@),
{
    let mut i: usize = 0;
    while i < list.len()
        invariant
            0 <= i <= list.len(),
            forall|j: int| 0 <= j < i ==> (#[trigger] list@[j])@ != text@,
        decreases list.len() - i,
    {
        if list[i] == *text {
            return true;
        }
        i = i + 1;
    }
    false
}

/// A company that the directory takes in: its stock is not on the list of
/// stocks to ignore, and it is no financial or insurance company.
pub open spec fn is_taken(company: CompanyInfo, ignore_stocks: Seq<String>) -> bool {
    !lists(ignore_stocks, company.stock_no@) && industry_code_reading(company.industry@) != Some(
        FINANCE_AND_INSURANCE,
    )
}

/// The companies that the directory takes in, in the order given.
pub open spec fn taken(companies: Seq<CompanyInfo>, ignore_stocks: Seq<String>) -> Seq<CompanyInfo>
    decreases companies.len(),
{
    if companies.len() == 0 {
        Seq::empty()
    } else if is_taken(companies.last(), ignore_stocks) {
        taken(companies.drop_last(), ignore_stocks).push(companies.last())
    } else {
        taken(companies.drop_last(), ignore_stocks)
    }
}

/// The place of the first company of `companies` whose stock is `stock_no`,
/// or the length of `companies` where there is none.
pub open spec fn first_with_stock(companies: Seq<CompanyInfo>, stock_no: Seq<char>) -> int
    decreases companies.len(),
{
    if companies.len() == 0 || companies[0].stock_no@ == stock_no {
        0
    } else {
        1 + first_with_stock(companies.skip(1), stock_no)
    }
}

/// The label of the sector that a sector code names, or the label for an
/// unknown sector.
pub open spec fn label_of(industry: Seq<char>) -> Seq<char> {
    match industry_code_reading(industry) {
        Some(code) => match industry_label(code) {
            Some(label) => label,
            None => unknown_industry(),
        },
        None => unknown_industry(),
    }
}

/// The name under which a company is shown: its short name, a slash, and
/// the label of its sector.
pub open spec fn display_name(company: CompanyInfo) -> Seq<char> {
    company.name@ + seq!['/'] + label_of(company.industry@)
}

/// The directory of listed companies.
pub struct CompanyMap {
    /// The companies, ordered by the numbers of their stocks.
    pub stock_map: Vec<CompanyInfo>,
    /// The label of each numbered sector.
    pub industry_map: HashMap<u64, &'static str>,
}

impl CompanyMap {
    /// The table of sector labels is the one that `build_industry_map`
    /// builds.
    pub open spec fn wf(&self) -> bool {
        is_industry_table(self.industry_map@)
    }

    /// The directory knows a company with the stock `stock_no`.
    pub open spec fn knows_stock(&self, stock_no: Seq<char>) -> bool {
        first_with_stock(self.stock_map@, stock_no) < self.stock_map@.len()
    }

    /// Builds the directory from the companies that the exchange lists and
    /// the stocks to ignore: keeps the companies that are taken in, ordered
    /// by the numbers of their stocks.
    pub fn new(companies: &Vec<CompanyInfo>, ignore_stocks: &Vec<String>) -> (map: Self)
        ensures
            map.wf(),
            map.stock_map@ == stable_sorted(taken(companies@, ignore_stocks@)),
            is_sorted(map.stock_map@),
    {
        let industry_map = build_industry_map();
        let mut kept: Vec<CompanyInfo> = Vec::new();
        let mut i: usize = 0;
        proof {
            assert(companies@.take(0) =~= Seq::<CompanyInfo>::empty());
        }
        while i < companies.len()
            invariant
                0 <= i <= companies.len(),
                kept@ == taken(companies@.take(i as int), ignore_stocks@),
            decreases companies.len() - i,
        {
            proof {
                assert(companies@.take(i + 1).drop_last() =~= companies@.take(i as int));
                assert(companies@.take(i + 1).last() == companies@[i as int]);
            }
            let company = &companies[i];
            let ignored = is_listed(ignore_stocks, &company.stock_no);
            let finance = match industry_code(company.industry.as_str()) {
                Some(code) => code == FINANCE_AND_INSURANCE,
                None => false,
            };
            if !ignored && !finance {
                kept.push(company.clone());
            }
            i = i + 1;
        }
        proof {
            assert(companies@.take(companies.len() as int) =~= companies@);
        }
        CompanyMap { stock_map: stable_sort(kept), industry_map }
    }

    /// The place of the first company with the stock `stock_no`.
    fn position(&self, stock_no: &str) -> (at: usize)
        ensures
            at == first_with_stock(self.stock_map@, stock_no@),
            at <= self.stock_map@.len(),
            at < self.stock_map@.len() ==> self.stock_map@[at as int].stock_no@ == stock_no@,
    {
        let mut at: usize = 0;
        let ghost all = self.stock_map@;
        proof {
            assert(all.skip(0) =~= all);
        }
        while at < self.stock_map.len() && !crate::text::same_text(
            self.stock_map[at].stock_no.as_str(),
            stock_no,
        )
            invariant
                all == self.stock_map@,
                0 <= at <= all.len(),
                first_with_stock(all, stock_no@) == at + first_with_stock(
                    all.skip(at as int),
                    stock_no@,
                ),
            decreases all.len() - at,
        {
            proof {
                assert(all.skip(at as int)[0] == all[at as int]);
                assert(all.skip(at as int).skip(1) =~= all.skip(at + 1));
            }
            at = at + 1;
        }
        proof {
            if at < all.len() {
                assert(all.skip(at as int)[0] == all[at as int]);
            }
        }
        at
    }

    /// Whether the directory knows a company with the stock `stock_no`.
    pub fn knows(&self, stock_no: &str) -> (b: bool)
        ensures
            b == self.knows_stock(stock_no@),
    {
        self.position(stock_no) < self.stock_map.len()
    }

    /// The name under which the company with the stock `stock_no` is shown:
    /// its short name, a slash, and the label of its sector. The directory
    /// must know the stock.
    pub fn get(&self, stock_no: &str) -> (name: String)
        requires
            self.wf(),
            self.knows_stock(stock_no@),
        ensures
            name@ == display_name(
                self.stock_map@[first_with_stock(self.stock_map@, stock_no@)],
            ),
    {
        let at = self.position(stock_no);
        let company = &self.stock_map[at];
        let label: &str = match industry_code(company.industry.as_str()) {
            Some(code) => {
                broadcast use vstd::std_specs::hash::group_hash_axioms;

                match self.industry_map.get(&code) {
                    Some(label) => *label,
                    None => "未知產業",
                }
            },
            None => "未知產業",
        };
        let mut name = company.name.clone();
        name.push('/');
        name.append(label);
        proof {
            assert(name@ =~= display_name(*company));
        }
        name
    }
}

/// The place where the comment of a line starts: the first place with two
/// slashes in a row, or the length of the line where it has no comment.
pub open spec fn comment_start(line: Seq<char>) -> int
    decreases line.len(),
{
    if line.len() < 2 {
        line.len() as int
    } else if line[0] == '/' && line[1] == '/' {
        0
    } else {
        1 + comment_start(line.skip(1))
    }
}

/// What a line of the list of stocks to ignore says: the line up to its
/// comment, without white space at either end.
pub open spec fn cleaned(line: Seq<char>) -> Seq<char> {
    trimmed(line.take(comment_start(line)))
}

/// The entries that the lines of a list hold: what each line says, where it
/// says anything.
pub open spec fn entries(lines: Seq<String>, found: Seq<String>) -> bool
    decreases lines.len(),
{
    if lines.len() == 0 {
        found.len() == 0
    } else if cleaned(lines.last()@).len() == 0 {
        entries(lines.drop_last(), found)
    } else {
        found.len() > 0 && found.last()@ == cleaned(lines.last()@) && entries(
            lines.drop_last(),
            found.drop_last(),
        )
    }
}

/// Strips the comment and the white space around what is left of a line.
pub fn clean_line(line: &str) -> (r: String)
    ensures
        r@ == cleaned(line@),
{
    let chars = chars_of(line);
    let mut at: usize = 0;
    proof {
        assert(chars@.skip(0) =~= chars@);
    }
    while chars.len() - at >= 2 && !(chars[at] == '/' && chars[at + 1] == '/')
        invariant
            0 <= at <= chars.len(),
            comment_start(chars@) == at + comment_start(chars@.skip(at as int)),
        decreases chars.len() - at,
    {
        proof {
            assert(chars@.skip(at as int)[0] == chars@[at as int]);
            assert(chars@.skip(at as int)[1] == chars@[at + 1]);
            assert(chars@.skip(at as int).skip(1) =~= chars@.skip(at + 1));
        }
        at = at + 1;
    }
    let end: usize = if chars.len() - at >= 2 {
        at
    } else {
        chars.len()
    };
    proof {
        if chars.len() - at >= 2 {
            assert(chars@.skip(at as int)[0] == chars@[at as int]);
            assert(chars@.skip(at as int)[1] == chars@[at + 1]);
        }
        assert(chars@.subrange(0, end as int) =~= chars@.take(end as int));
    }
    trimmed_text(&chars, 0, end)
}

/// Reads the list of stocks to ignore from its lines: a line counts up to
/// its comment, which two slashes start, and without the white space around
/// it; a line that is empty then is passed over.
pub fn read_lines_to_vec(lines: &Vec<String>) -> (result: Vec<String>)
    ensures
        entries(lines@, result@),
{
    let mut result: Vec<String> = Vec::new();
    let mut i: usize = 0;
    proof {
        assert(lines@.take(0) =~= Seq::<String>::empty());
    }
    while i < lines.len()
        invariant
            0 <= i <= lines.len(),
            entries(lines@.take(i as int), result@),
        decreases lines.len() - i,
    {
        proof {
            assert(lines@.take(i + 1).drop_last() =~= lines@.take(i as int));
            assert(lines@.take(i + 1).last() == lines@[i as int]);
        }
        let clean = clean_line(lines[i].as_str());
        if !clean.as_str().is_empty() {
            let ghost before = result@;
            result.push(clean);
            proof {
                assert(result@.drop_last() =~= before);
            }
        }
        i = i + 1;
    }
    proof {
        assert(lines@.take(lines.len() as int) =~= lines@);
    }
    result
}
} // verus!
