//! The answers of the trading-data service: where to ask, and what to make
//! of an answer.

use crate::calendar::YearMonth;
use crate::text::{contains_text, occurs_in, same_text};
use vstd::prelude::*;
use vstd::string::StringExecFns;

verus! {

/// An answer of the service, read from its JSON form.
#[derive(Debug)]
pub struct TwseResponse {
    /// The status: `OK`, or a message that says why there is no data.
    pub stat: String,
    /// The title of the table; empty where the answer had none.
    pub title: String,
    /// The rows of the table, each of ten fields; `None` where the answer
    /// had none.
    pub data: Option<Vec<Vec<String>>>,
}

/// Why a fetch gave no answer to use.
#[derive(Clone, Copy, Debug, PartialEq, Eq, Structural)]
pub enum FetchError {
    /// The service sent a page of HTML where data was asked for: it is
    /// blocking the caller.
    Blocked,
}

/// What the fetch loop does with an answer.
#[derive(Debug)]
pub enum FetchStep {
    /// The answer is the result.
    Done(TwseResponse),
    /// The month lies outside what the service holds, or it has nothing
    /// that matches: ask again.
    Retry,
    /// The service reports an error: give up.
    Fail,
}

/// The status of an answer that holds data.
pub open spec fn is_ok(stat: Seq<char>) -> bool {
    stat == "OK"@
}

/// The status says that the month asked for is later or earlier than what
/// the service holds, or that nothing matches the query.
pub open spec fn is_unavailable(stat: Seq<char>) -> bool {
    ||| occurs_in("查詢日期大於"@, stat)
    ||| occurs_in("查詢日期小於"@, stat)
    ||| occurs_in("很抱歉，沒有符合條件的資料"@, stat)
}

/// The step that an answer leads to.
pub open spec fn step_after(parsed: TwseResponse) -> FetchStep {
    if is_ok(parsed.stat@) {
        FetchStep::Done(parsed)
    } else if is_unavailable(parsed.stat@) {
        FetchStep::Retry
    } else {
        FetchStep::Fail
    }
}

impl TwseResponse {
    /// Decides what the fetch loop does with the answer `parsed`: an answer
    /// with the status `OK` is the result; one that says that the data is
    /// not available is asked for again; any other is an error.
    pub fn new(parsed: TwseResponse) -> (step: FetchStep)
        ensures
            step == step_after(parsed),
    {
        if same_text(parsed.stat.as_str(), "OK") {
            FetchStep::Done(parsed)
        } else if contains_text(parsed.stat.as_str(), "查詢日期大於") || contains_text(
            parsed.stat.as_str(),
            "查詢日期小於",
        ) || contains_text(parsed.stat.as_str(), "很抱歉，沒有符合條件的資料") {
            FetchStep::Retry
        } else {
            FetchStep::Fail
        }
    }
}

/// The address at which the daily records of a stock for a month are asked
/// for: the query names the first day of the month and the stock.
pub open spec fn stock_day_address(stock_no: Seq<char>, year_month: YearMonth) -> Seq<char> {
    "https://www.twse.com.tw/exchangeReport/STOCK_DAY?response=json&date="@ + year_month.text()
        + "01"@ + "&stockNo="@ + stock_no
}

/// Builds the address at which the daily records of `stock_no` for
/// `year_month` are asked for.
pub fn stock_data_url(stock_no: &str, year_month: YearMonth) -> (url: String)
    requires
        year_month.is_valid(),
    ensures
        url@ == stock_day_address(stock_no@, year_month),
{
    let mut url = "https://www.twse.com.tw/exchangeReport/STOCK_DAY?response=json&date=".to_owned();
    let month = year_month.to_text();
    url.append(month.as_str());
    url.append("01");
    url.append("&stockNo=");
    url.append(stock_no);
    url
}

/// The body of an answer holds the start of a page of HTML.
pub open spec fn is_blocked(body: Seq<char>) -> bool {
    occurs_in("<html>"@, body)
}

/// Judges the body that the service sent: a page of HTML means that the
/// service is blocking the caller; anything else is handed on as it is.
pub fn fetch_stock_data(body_text: String) -> (r: Result<String, FetchError>)
    ensures
        is_blocked(body_text@) ==> r == Err::<String, FetchError>(FetchError::Blocked),
        !is_blocked(body_text@) ==> r == Ok::<String, FetchError>(body_text),
{
    if contains_text(body_text.as_str(), "<html>") {
        Err(FetchError::Blocked)
    } else {
        Ok(body_text)
    }
}

} // verus!
