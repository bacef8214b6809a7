# rust_mm_bot

The decisions of a market-making bot for prediction markets that pay rewards for resting orders,
written and proved in Verus.

The bot polls the open orders of an account, looks up which spread each market rewards, and checks
the orders one by one: an order whose reward is not known is cancelled, one without an order book
waits, and the others are priced inside the band that earns the reward. On the side it ranks the
markets that pay rewards and prepares quotes on them.

* `src/` is the library.
  * `rounding`, `binary64`: binary64 numbers as bit patterns, with correctly rounded sum,
    difference and product.
  * `text`, `regime`, `startup`: texts, tick sizes and settings.
  * `feeds`: when to connect to a feed, and when to wait.
  * `rewards`, `http_status`, `spreads`: the answers of the rewards service, their ranking, and
    the steps of a request to it.
  * `orders`, `quoting`: tokens to follow, capital that is bound, and the band that earns rewards.
  * `decision`, `rows`, `engine`, `check`: what is known between two events, and the course of one
    check of one order.
  * `discovery`: which markets are scanned and what a quote is planned from.
  * `reward_laws`, `engine_laws`: what holds across several of these functions.
* `tests/` run the library on concrete values.
* `app/` is the program around it: requests, timers, logs, and the traits through which an account,
  a strategy and a display are plugged in.
