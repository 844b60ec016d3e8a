//! A traded security: its timestamps, its historical bars and its indicators.

use vstd::prelude::*;
use crate::stock::datetime::{precedes, DateTime, Fields};
use crate::stock::historical::{ordered_by_date, sort_by_date, sorted_by_date, HistoricalData};
use crate::stock::price::Price;

pub mod datetime;
pub mod historical;
pub mod price;
pub mod ta;

verus! {

/// What a `Stock` holds.
pub struct StockData {
    pub ticker: Seq<char>,
    pub security_type: Seq<char>,
    pub name: Seq<char>,
    pub market_cap: u64,
    pub pe_ratio: Price,
    pub eps: Price,
    pub high52: Price,
    pub low52: Price,
    pub historical_data: Seq<HistoricalData>,
}

/// A security with its key figures and its historical bars.
#[derive(Debug)]
pub struct Stock {
    ticker: String,
    security_type: String,
    name: String,
    market_cap: u64,
    pe_ratio: Price,
    eps: Price,
    high52: Price,
    low52: Price,
    historical_data: Vec<HistoricalData>,
}

impl View for Stock {
    type V = StockData;

    closed spec fn view(&self) -> StockData {
        StockData {
            ticker: self.ticker@,
            security_type: self.security_type@,
            name: self.name@,
            market_cap: self.market_cap,
            pe_ratio: self.pe_ratio,
            eps: self.eps,
            high52: self.high52,
            low52: self.low52,
            historical_data: self.historical_data@,
        }
    }
}

/// The date lies in the span from `start` to `end`, both ends included.
pub open spec fn within(date: Fields, start: Fields, end: Fields) -> bool {
    !precedes(date, start) && !precedes(end, date)
}

/// The test that picks the bars dated from `start` to `end`, both ends
/// included.
pub open spec fn dated_within(start: Fields, end: Fields) -> spec_fn(HistoricalData) -> bool {
    |d: HistoricalData| within(d@.date, start, end)
}

impl Stock {
    /// A security known by its ticker alone: no name, no figures, no bars.
    pub fn new(ticker: &str) -> (s: Stock)
        ensures
            s@ == (StockData {
                ticker: ticker@,
                security_type: Seq::empty(),
                name: Seq::empty(),
                market_cap: 0,
                pe_ratio: Price { bits: 0 },
                eps: Price { bits: 0 },
                high52: Price { bits: 0 },
                low52: Price { bits: 0 },
                historical_data: Seq::empty(),
            }),
    {
        Stock {
            name: String::new(),
            ticker: ticker.to_owned(),
            security_type: String::new(),
            market_cap: 0,
            pe_ratio: Price { bits: 0 },
            eps: Price { bits: 0 },
            high52: Price { bits: 0 },
            low52: Price { bits: 0 },
            historical_data: Vec::new(),
        }
    }

    pub fn get_ticker(&self) -> (r: String)
        ensures
            r@ == self@.ticker,
    {
        self.ticker.clone()
    }

    pub fn set_ticker(&mut self, ticker: &str)
        ensures
            final(self)@ == (StockData { ticker: ticker@, ..old(self)@ }),
    {
        self.ticker = ticker.to_owned();
    }

    pub fn get_security_type(&self) -> (r: String)
        ensures
            r@ == self@.security_type,
    {
        self.security_type.clone()
    }

    pub fn set_security_type(&mut self, security_type: &str)
        ensures
            final(self)@ == (StockData { security_type: security_type@, ..old(self)@ }),
    {
        self.security_type = security_type.to_owned();
    }

    pub fn get_name(&self) -> (r: String)
        ensures
            r@ == self@.name,
    {
        self.name.clone()
    }

    pub fn set_name(&mut self, name: &str)
        ensures
            final(self)@ == (StockData { name: name@, ..old(self)@ }),
    {
        self.name = name.to_owned();
    }

    pub fn get_market_cap(&self) -> (r: u64)
        ensures
            r == self@.market_cap,
    {
        self.market_cap
    }

    pub fn set_market_cap(&mut self, market_cap: u64)
        ensures
            final(self)@ == (StockData { market_cap, ..old(self)@ }),
    {
        self.market_cap = market_cap;
    }

    pub fn get_pe_ratio(&self) -> (r: Price)
        ensures
            r == self@.pe_ratio,
    {
        self.pe_ratio
    }

    pub fn set_pe_ratio(&mut self, pe_ratio: Price)
        ensures
            final(self)@ == (StockData { pe_ratio, ..old(self)@ }),
    {
        self.pe_ratio = pe_ratio;
    }

    pub fn get_eps(&self) -> (r: Price)
        ensures
            r == self@.eps,
    {
        self.eps
    }

    pub fn set_eps(&mut self, eps: Price)
        ensures
            final(self)@ == (StockData { eps, ..old(self)@ }),
    {
        self.eps = eps;
    }

    pub fn get_high52(&self) -> (r: Price)
        ensures
            r == self@.high52,
    {
        self.high52
    }

    pub fn set_high52(&mut self, high52: Price)
        ensures
            final(self)@ == (StockData { high52, ..old(self)@ }),
    {
        self.high52 = high52;
    }

    pub fn get_low52(&self) -> (r: Price)
        ensures
            r == self@.low52,
    {
        self.low52
    }

    pub fn set_low52(&mut self, low52: Price)
        ensures
            final(self)@ == (StockData { low52, ..old(self)@ }),
    {
        self.low52 = low52;
    }

    pub fn get_historical_data(&self) -> (r: &Vec<HistoricalData>)
        ensures
            r@ == self@.historical_data,
    {
        &self.historical_data
    }

    /// Takes the bars of `rows` in beside the bars already held, and sorts
    /// all of them by date.
    pub fn add_historical_data(&mut self, rows: Vec<HistoricalData>)
        ensures
            final(self)@ == (StockData {
                historical_data: sorted_by_date(old(self)@.historical_data + rows@),
                ..old(self)@
            }),
            final(self)@.historical_data.to_multiset() == old(self)@.historical_data.to_multiset().add(
                rows@.to_multiset(),
            ),
            ordered_by_date(final(self)@.historical_data),
    {
        let mut rows = rows;
        let ghost before = self.historical_data@;
        let ghost added = rows@;
        self.historical_data.append(&mut rows);
        proof {
            vstd::seq_lib::lemma_multiset_commutative(before, added);
        }
        sort_by_date(&mut self.historical_data);
    }

    /// The bars dated from `start_date` to `end_date`, both ends included,
    /// in the order in which the store holds them.
    pub fn query_historical_data(&self, start_date: &DateTime, end_date: &DateTime) -> (r: Vec<
        &HistoricalData,
    >)
        ensures
            r@.map_values(|d: &HistoricalData| *d) == self@.historical_data.filter(
                dated_within(start_date@, end_date@),
            ),
    {
        let mut o: Vec<&HistoricalData> = Vec::new();
        let n = self.historical_data.len();
        let ghost pick = dated_within(start_date@, end_date@);
        let mut i: usize = 0;
        while i < n
            invariant
                i <= n,
                n == self.historical_data.len(),
                pick == dated_within(start_date@, end_date@),
                o@.map_values(|d: &HistoricalData| *d) == self.historical_data@.take(i as int).filter(
                    pick,
                ),
            decreases n - i,
        {
            let r = &self.historical_data[i];
            let ghost held = o@.map_values(|d: &HistoricalData| *d);
            proof {
                assert(self.historical_data@.take(i + 1).drop_last() =~= self.historical_data@.take(
                    i as int,
                ));
                reveal(Seq::filter);
            }
            if r.get_date().is_on_or_after(start_date) && r.get_date().is_on_or_before(end_date) {
                o.push(r);
                assert(o@.map_values(|d: &HistoricalData| *d) =~= held.push(*r));
            }
            i = i + 1;
        }
        assert(self.historical_data@.take(n as int) =~= self.historical_data@);
        o
    }
}

} // verus!
