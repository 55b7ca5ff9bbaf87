pub mod small_prime;
